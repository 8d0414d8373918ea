// Writing elements to a byte sink and reading them back from a cursor.

use ebml::common::Element;
use ebml::io::{Cursor, ReadEbml, WriteEbml};

// An element ID keeps its length marker: the one-octet ID whose value
// bits are 42 is written 0xaa.

#[test]
fn element_write_with_data_one_octet() {
    let data = vec![0xaa, 0x81, 10];
    let elem = Element::new(0x80 | 42, vec![10]);

    let mut buf = Vec::with_capacity(3);
    buf.write_ebml_element(elem).unwrap();

    assert_eq!(data, buf);
}

#[test]
fn element_read_with_data_one_octet() {
    let mut data = Cursor::new(vec![0xaa, 0x81, 10]);
    let (elem, _) = data.read_ebml_element().unwrap();

    assert_eq!(0x80 | 42, elem.id());
    let payload = elem.content().into_binary();
    assert_eq!(1, payload.len());
    assert_eq!(vec![10], payload);
}

#[test]
fn element_write_with_data_one_megs() {
    let mut data = vec![0xaa, 0x30, 0x00, 0x00];
    data.extend(vec![42u8; 0x100000]); // 1 MiB of data

    let elem = Element::new(0x80 | 42, vec![42u8; 0x100000]);

    let mut buf = Vec::with_capacity(3);
    buf.write_ebml_element(elem).unwrap();

    assert_eq!(data, buf);
}

#[test]
fn element_read_with_data_one_megs() {
    let mut data = vec![0xaa, 0x30, 0x00, 0x00];
    data.extend(vec![42u8; 0x100000]); // 1 MiB of data

    let mut data = Cursor::new(data);
    let (elem, _) = data.read_ebml_element().unwrap();

    assert_eq!(0x80 | 42, elem.id());
    let payload = elem.content().into_binary();
    assert_eq!(0x100000, payload.len());
    assert_eq!(vec![42u8; 0x100000], payload);
}

#[test]
fn element_info_read_and_write() {
    let mut data = Cursor::new(vec![0x1a, 0x45, 0xdf, 0xa3, 0x93, 0x42]);
    let (info, c) = data.read_ebml_element_info().unwrap();
    assert_eq!(0x1a45dfa3, info.id);
    assert_eq!(0x13, info.size);
    assert_eq!(5, c);
    assert_eq!(1, data.remaining_len());

    let mut buf: Vec<u8> = Vec::new();
    buf.write_ebml_element_info(info).unwrap();
    assert_eq!(vec![0x1a, 0x45, 0xdf, 0xa3, 0x93], buf);
}

#[test]
fn element_write_invalid_id_leaves_sink() {
    let mut buf: Vec<u8> = vec![7];
    let err = buf.write_ebml_element(Element::new(42, vec![1])).unwrap_err();
    assert_eq!(ebml::error::Error::InvalidVint, err);
    assert_eq!(vec![7], buf);
}

#[test]
fn element_round_trip() {
    let elem = Element::new(0x4286, vec![1, 2, 3]);
    let mut buf: Vec<u8> = Vec::new();
    buf.write_ebml_element(elem).unwrap();
    assert_eq!(vec![0x42, 0x86, 0x83, 1, 2, 3], buf);

    let mut r = Cursor::new(buf);
    let (back, c) = r.read_ebml_element().unwrap();
    assert_eq!(6, c);
    assert_eq!(0x4286, back.id());
    assert_eq!(3, back.size());
    assert_eq!(vec![1, 2, 3], back.content().into_binary());
}
