// Reading elements, headers and trees from a cursor.

use ebml::common::FloatBits;
use ebml::error::Error;
use ebml::header;
use ebml::io::Cursor;
use ebml::reader;
use ebml::registry::Registry;
use ebml::tree;

const HEADER: [u8; 24] = [
    0x1a, 0x45, 0xdf, 0xa3, 0x93, 0x42, 0x82, 0x88, 0x6d, 0x61, 0x74, 0x72, 0x6f, 0x73, 0x6b,
    0x61, 0x42, 0x87, 0x81, 0x01, 0x42, 0x85, 0x81, 0x01,
];

fn float_of(bits: FloatBits) -> f64 {
    match bits {
        FloatBits::Single(b) => f32::from_bits(b) as f64,
        FloatBits::Double(b) => f64::from_bits(b),
    }
}

#[test]
fn ebml_header_oneshot() {
    let mut data = Cursor::new(vec![
       0x1a, 0x45, 0xdf, 0xa3, 0x93, 0x42, 0x82, 0x88, 0x6d, 0x61, 0x74, 0x72, 0x6f, 0x73, 0x6b,
       0x61, 0x42, 0x87, 0x81, 0x01, 0x42, 0x85, 0x81, 0x01,
    ]);

    let (root, _) = reader::read_element(&mut data).unwrap();

    for child in root.content().children().unwrap().vec() {
        let id = child.id();
        let data = child.content();

        match id {
            header::VERSION => assert_eq!(data.into_uint(), 1),
            header::READ_VERSION => assert_eq!(data.into_uint(), 1),
            header::MAX_ID_LENGTH => assert_eq!(data.into_uint(), 4),
            header::MAX_SIZE_LENGTH => assert_eq!(data.into_uint(), 8),

            header::DOC_TYPE => assert_eq!(data.into_utf8().unwrap().as_str(), "matroska"),
            header::DOC_TYPE_VERSION => assert_eq!(data.into_uint(), 1),
            header::DOC_TYPE_READ_VERSION => assert_eq!(data.into_uint(), 1),

            _ => panic!("Unexpected EBML element"),
        };
    }
}

#[test]
fn ebml_header_sequential() {
    let mut data = Cursor::new(vec![
       0x1a, 0x45, 0xdf, 0xa3, 0x93, 0x42, 0x82, 0x88, 0x6d, 0x61, 0x74, 0x72, 0x6f, 0x73, 0x6b,
       0x61, 0x42, 0x87, 0x81, 0x01, 0x42, 0x85, 0x81, 0x01,
    ]);

    let (id, size, _) = reader::read_element_info(&mut data).unwrap();
    let mut count = 0 as usize;

    assert_eq!(id, header::EBML);

    while count < size {
        let (child, c) = reader::read_element(&mut data).unwrap();
        count += c;

        let id = child.id();
        let data = child.content();

        match id {
            header::VERSION => assert_eq!(data.into_uint(), 1),
            header::READ_VERSION => assert_eq!(data.into_uint(), 1),
            header::MAX_ID_LENGTH => assert_eq!(data.into_uint(), 4),
            header::MAX_SIZE_LENGTH => assert_eq!(data.into_uint(), 8),

            header::DOC_TYPE => assert_eq!(data.into_utf8().unwrap().as_str(), "matroska"),
            header::DOC_TYPE_VERSION => assert_eq!(data.into_uint(), 1),
            header::DOC_TYPE_READ_VERSION => assert_eq!(data.into_uint(), 1),

            _ => panic!("Unexpected EBML element"),
        };
    }
}

#[test]
fn data_binary() {
    let mut data = Cursor::new(vec![
        0x8f, 0x8e, 0x42, 0x42, 0x42, 0x42, 0x42, 0x42, 0x42, 0x42, 0x42, 0x42, 0x42, 0x42, 0x42, 0x42,
    ]);

    let (elem, _) = reader::read_element(&mut data).unwrap();
    let value = elem.content().into_binary();

    assert_eq!(value, vec![0x42, 0x42, 0x42, 0x42, 0x42, 0x42, 0x42, 0x42, 0x42, 0x42, 0x42, 0x42, 0x42, 0x42]);
}

#[test]
fn data_unsigned_int_8() {
    let mut data = Cursor::new(vec![
        0x8f, 0x81, 0x2a
    ]);

    let (elem, _) = reader::read_element(&mut data).unwrap();
    let value = elem.content().into_uint();

    assert_eq!(value, 42);
}

#[test]
fn data_unsigned_int_16() {
    let mut data = Cursor::new(vec![
        0x8f, 0x82, 0x15, 0x6f
    ]);

    let (elem, _) = reader::read_element(&mut data).unwrap();
    let value = elem.content().into_uint();

    assert_eq!(value, 5487);
}

#[test]
fn data_unsigned_int_24() {
    let mut data = Cursor::new(vec![
        0x8f, 0x83, 0x0e, 0xfd, 0xa1
    ]);

    let (elem, _) = reader::read_element(&mut data).unwrap();
    let value = elem.content().into_uint();

    assert_eq!(value, 982433);
}

#[test]
fn data_unsigned_int_32() {
    let mut data = Cursor::new(vec![
        0x8f, 0x84, 0x3, 0x3a, 0x3d, 0xdc
    ]);

    let (elem, _) = reader::read_element(&mut data).unwrap();
    let value = elem.content().into_uint();

    assert_eq!(value, 54148572);
}

#[test]
fn data_unsigned_int_40() {
    let mut data = Cursor::new(vec![
        0x8f, 0x85, 0x07, 0xae, 0x07, 0x7f, 0xcf
    ]);

    let (elem, _) = reader::read_element(&mut data).unwrap();
    let value = elem.content().into_uint();

    assert_eq!(value, 32984498127);
}

#[test]
fn data_unsigned_int_64() {
    let mut data = Cursor::new(vec![
        0x8f, 0x88, 0x2d, 0xc6, 0x72, 0xa0, 0xf4, 0xe6, 0xea, 0x9a
    ]);

    let (elem, _) = reader::read_element(&mut data).unwrap();
    let value = elem.content().into_uint();

    assert_eq!(value, 3298449812724574874);
}

#[test]
fn data_signed_int_8() {
    let mut data = Cursor::new(vec![
        0x8f, 0x88, 0xFF, 0xFF, 0xFF, 0xFF, 0xFF, 0xFF, 0xFF, 0xD6
    ]);

    let (elem, _) = reader::read_element(&mut data).unwrap();
    let value = elem.content().into_int();

    assert_eq!(value, -42);
}

#[test]
fn data_signed_int_16() {
    let mut data = Cursor::new(vec![
        0x8f, 0x88, 0xff, 0xff, 0xff, 0xff, 0xff, 0xff, 0xea, 0x91
    ]);

    let (elem, _) = reader::read_element(&mut data).unwrap();
    let value = elem.content().into_int();

    assert_eq!(value, -5487);
}

#[test]
fn data_signed_int_24() {
    let mut data = Cursor::new(vec![
        0x8f, 0x88, 0xff, 0xff, 0xff, 0xff, 0xff, 0xf1, 0x02, 0x5f
    ]);

    let (elem, _) = reader::read_element(&mut data).unwrap();
    let value = elem.content().into_int();

    assert_eq!(value, -982433);
}

#[test]
fn data_signed_int_32() {
    let mut data = Cursor::new(vec![
        0x8f, 0x88, 0xff, 0xff, 0xff, 0xff, 0xfc, 0xc5, 0xc2, 0x24
    ]);

    let (elem, _) = reader::read_element(&mut data).unwrap();
    let value = elem.content().into_int();

    assert_eq!(value, -54148572);
}

#[test]
fn data_signed_int_40() {
    let mut data = Cursor::new(vec![
        0x8f, 0x88, 0xff, 0xff, 0xff, 0xf8, 0x51, 0xf8, 0x80, 0x31
    ]);

    let (elem, _) = reader::read_element(&mut data).unwrap();
    let value = elem.content().into_int();

    assert_eq!(value, -32984498127);
}

#[test]
fn data_signed_int_64() {
    let mut data = Cursor::new(vec![
        0x8f, 0x88, 0xd2, 0x39, 0x8d, 0x5f, 0x0b, 0x19, 0x15, 0x66
    ]);

    let (elem, _) = reader::read_element(&mut data).unwrap();
    let value = elem.content().into_int();

    assert_eq!(value, -3298449812724574874);
}

#[test]
fn data_float_32() {
    let mut data = Cursor::new(vec![
        0x8f, 0x84, 0x42, 0x2a, 0x30, 0xaf
    ]);

    let (elem, _) = reader::read_element(&mut data).unwrap();
    let value = float_of(elem.content().into_float().unwrap());

    assert_eq!(value, 42.547542572021484);
}

#[test]
fn data_float_64() {
    let mut data = Cursor::new(vec![
        0x8f, 0x88, 0x40, 0x45, 0x15, 0x72, 0x23, 0xec, 0xa9, 0x59
    ]);

    let (elem, _) = reader::read_element(&mut data).unwrap();
    let value = float_of(elem.content().into_float().unwrap());

    assert_eq!(value, 42.16754578643549);
}

#[test]
fn header_document_parse() {
    let mut data = Cursor::new(HEADER.to_vec());
    let (root, c) = reader::read_element(&mut data).unwrap();
    assert_eq!(c, 24);
    assert_eq!(root.id(), 0x1a45dfa3);
    assert_eq!(root.size(), 0x13);
    let mut children = root.content().children().unwrap();
    let doc_type = children.find(header::DOC_TYPE).unwrap();
    assert_eq!(doc_type.content().into_utf8().unwrap(), "matroska");
    let v = children.find(header::DOC_TYPE_VERSION).unwrap();
    assert_eq!(v.content().into_uint(), 1);
    let rv = children.find(header::DOC_TYPE_READ_VERSION).unwrap();
    assert_eq!(rv.content().into_uint(), 1);
    assert!(children.find(header::DOC_TYPE).is_none());
    assert_eq!(children.vec().len(), 0);
}

#[test]
fn read_header_fields_and_defaults() {
    let mut data = Cursor::new(HEADER.to_vec());
    let (h, c) = reader::read_header(&mut data).unwrap();
    assert_eq!(c, 24);
    assert_eq!(h.version(), 1);
    assert_eq!(h.read_version(), 1);
    assert_eq!(h.max_id_length(), 4);
    assert_eq!(h.max_size_length(), 8);
    assert_eq!(h.doc_type(), "matroska");
    assert_eq!(h.doc_type_version(), 1);
    assert_eq!(h.doc_type_read_version(), 1);
    assert_eq!(data.remaining_len(), 0);
}

#[test]
fn read_header_explicit_fields() {
    // EBMLVersion 2, EBMLMaxSizeLength 4, DocType "webm", DocTypeVersion 4.
    let mut data = Cursor::new(vec![
        0x1a, 0x45, 0xdf, 0xa3, 0x93, 0x42, 0x86, 0x81, 0x02, 0x42, 0xf3, 0x81, 0x04, 0x42,
        0x82, 0x84, 0x77, 0x65, 0x62, 0x6d, 0x42, 0x87, 0x81, 0x04,
    ]);
    let (h, _) = reader::read_header(&mut data).unwrap();
    assert_eq!(h.version(), 2);
    assert_eq!(h.max_size_length(), 4);
    assert_eq!(h.max_id_length(), 4);
    assert_eq!(h.doc_type(), "webm");
    assert_eq!(h.doc_type_version(), 4);
    assert_eq!(h.doc_type_read_version(), 1);
}

#[test]
fn read_header_without_doc_type() {
    let mut data = Cursor::new(vec![0x1a, 0x45, 0xdf, 0xa3, 0x84, 0x42, 0x86, 0x81, 0x01]);
    assert_eq!(
        reader::read_header(&mut data).unwrap_err(),
        Error::ElementNotFound(header::DOC_TYPE)
    );
    assert_eq!(data.remaining_len(), 9);
}

#[test]
fn read_header_wrong_root() {
    let mut data = Cursor::new(vec![0x8f, 0x81, 0x2a]);
    assert_eq!(
        reader::read_header(&mut data).unwrap_err(),
        Error::UnexpectedElementId(0x8f)
    );
}

#[test]
fn read_header_integer_too_long() {
    let mut data = Cursor::new(vec![
        0x1a, 0x45, 0xdf, 0xa3, 0x8c, 0x42, 0x86, 0x89, 0, 0, 0, 0, 0, 0, 0, 0, 1,
    ]);
    assert_eq!(reader::read_header(&mut data).unwrap_err(), Error::InvalidIntegerSize);
}

#[test]
fn children_counts_fill_declared_size() {
    let mut data = Cursor::new(HEADER.to_vec());
    let (id, size, h) = reader::read_element_info(&mut data).unwrap();
    assert_eq!((id, size, h), (header::EBML, 0x13, 5));
    let mut count = 0usize;
    let mut sizes = Vec::new();
    while count < size {
        let (child, c) = reader::read_element(&mut data).unwrap();
        sizes.push(c);
        count += c;
        let _ = child;
    }
    assert_eq!(count, size);
    assert_eq!(sizes, vec![11, 4, 4]);
}

#[test]
fn children_corrupted_size_detected() {
    // DocTypeReadVersion claims two octets where only one is left.
    let mut bytes = HEADER.to_vec();
    bytes[22] = 0x82;
    let mut data = Cursor::new(bytes.clone());
    let (root, _) = reader::read_element(&mut data).unwrap();
    assert_eq!(root.content().children().unwrap_err(), Error::UnexpectedEof);

    // Read straight from the document, the counts overshoot the declared size.
    bytes.push(0x00);
    let mut data = Cursor::new(bytes);
    let (_, size, _) = reader::read_element_info(&mut data).unwrap();
    let mut count = 0usize;
    while count < size {
        let (_, c) = reader::read_element(&mut data).unwrap();
        count += c;
    }
    assert_ne!(count, size);
}

#[test]
fn vint_reads() {
    let mut r = Cursor::new(vec![0x8a, 0x49, 0xfc, 0x1a, 0x45, 0xdf, 0xa3, 0x01, 0, 0, 0, 0, 0, 0, 5]);
    assert_eq!(reader::read_vint(&mut r, true).unwrap(), (10, 1));
    assert_eq!(reader::read_vint(&mut r, true).unwrap(), (2556, 2));
    assert_eq!(reader::read_vint(&mut r, false).unwrap(), (0x1a45dfa3, 4));
    assert_eq!(reader::read_vint(&mut r, false).unwrap(), (0x0100000000000005, 8));
    assert_eq!(r.remaining_len(), 0);
}

#[test]
fn vint_zero_first_octet_is_invalid() {
    let mut r = Cursor::new(vec![0x00, 0x81]);
    assert_eq!(reader::read_vint(&mut r, true).unwrap_err(), Error::InvalidVint);
    assert_eq!(r.remaining_len(), 2);
}

#[test]
fn truncated_vint_fails() {
    let mut empty = Cursor::new(vec![]);
    assert_eq!(reader::read_vint(&mut empty, false).unwrap_err(), Error::UnexpectedEof);

    let mut r = Cursor::new(vec![0x40]);
    assert_eq!(reader::read_vint(&mut r, true).unwrap_err(), Error::UnexpectedEof);
    let mut r = Cursor::new(vec![0x01, 0, 0, 0, 0, 0, 0]);
    assert_eq!(reader::read_vint(&mut r, true).unwrap_err(), Error::UnexpectedEof);
    assert_eq!(r.remaining_len(), 7);
}

#[test]
fn truncated_payload_fails() {
    let mut r = Cursor::new(vec![0x8f, 0x85, 0x07, 0xae]);
    assert_eq!(reader::read_element(&mut r).unwrap_err(), Error::UnexpectedEof);
    assert_eq!(r.remaining_len(), 4);

    let mut r = Cursor::new(vec![0x8f, 0x85, 0x07, 0xae]);
    let (_, size, _) = reader::read_element_info(&mut r).unwrap();
    assert_eq!(size, 5);
    assert_eq!(reader::read_element_data(&mut r, size).unwrap_err(), Error::UnexpectedEof);
    assert_eq!(r.remaining_len(), 2);

    let mut r = Cursor::new(vec![0x1a, 0x45, 0xdf]);
    assert_eq!(reader::read_element_info(&mut r).unwrap_err(), Error::UnexpectedEof);
}

#[test]
fn shallow_read_then_skip() {
    let mut r = Cursor::new(vec![0x8f, 0x83, 1, 2, 3, 0x8e, 0x81, 9]);
    let (id, size, _) = reader::read_element_info(&mut r).unwrap();
    assert_eq!(id, 0x8f);
    r.skip(size).unwrap();
    let (id, size, _) = reader::read_element_info(&mut r).unwrap();
    assert_eq!(id, 0x8e);
    let (content, c) = reader::read_element_data(&mut r, size).unwrap();
    assert_eq!(c, 1);
    assert_eq!(content.into_binary(), vec![9]);
    assert_eq!(r.skip(1).unwrap_err(), Error::UnexpectedEof);
}

#[test]
fn tree_with_registry() {
    let mut reg = Registry::new();
    reg.register(header::EBML, true);
    assert!(reg.is_master(header::EBML));
    assert!(!reg.is_master(header::DOC_TYPE));

    let mut r = Cursor::new(HEADER.to_vec());
    let (nodes, c) = tree::read_element_tree(&mut r, &reg, 8).unwrap();
    assert_eq!(c, 24);
    assert_eq!(nodes.len(), 4);
    assert_eq!((nodes[0].id(), nodes[0].size(), nodes[0].depth()), (header::EBML, 0x13, 0));
    assert_eq!((nodes[1].id(), nodes[1].size(), nodes[1].depth()), (header::DOC_TYPE, 8, 1));
    assert_eq!((nodes[2].id(), nodes[3].id()), (header::DOC_TYPE_VERSION, header::DOC_TYPE_READ_VERSION));
    let mut nodes = nodes;
    let last = nodes.pop().unwrap();
    assert_eq!(last.data().to_unsigned_int().unwrap(), 1);
    let doc_type = nodes.remove(1);
    assert_eq!(doc_type.data().to_utf8().unwrap(), "matroska");
    let root = nodes.remove(0);
    assert_eq!(root.data().take().unwrap_err(), Error::NoData);
}

#[test]
fn tree_unregistered_master_is_leaf() {
    let reg = Registry::new();
    let mut r = Cursor::new(HEADER.to_vec());
    let (nodes, c) = tree::read_element_tree(&mut r, &reg, 8).unwrap();
    assert_eq!(c, 24);
    assert_eq!(nodes.len(), 1);
    let root = nodes.into_iter().next().unwrap();
    assert_eq!(root.data().take().unwrap(), HEADER[5..].to_vec());
}

#[test]
fn tree_depth_limit() {
    let mut reg = Registry::new();
    reg.register(header::EBML, true);
    let mut r = Cursor::new(HEADER.to_vec());
    assert_eq!(tree::read_element_tree(&mut r, &reg, 0).unwrap_err(), Error::NestingTooDeep);
    assert_eq!(r.remaining_len(), 24);

    // Later registration replaces earlier.
    reg.register(header::EBML, false);
    let (nodes, _) = tree::read_element_tree(&mut r, &reg, 0).unwrap();
    assert_eq!(nodes.len(), 1);
}

#[test]
fn tree_child_overrun_detected() {
    let mut reg = Registry::new();
    reg.register(header::EBML, true);
    let mut bytes = HEADER.to_vec();
    bytes[22] = 0x82;
    bytes.push(0);
    let mut r = Cursor::new(bytes);
    assert_eq!(tree::read_element_tree(&mut r, &reg, 8).unwrap_err(), Error::UnexpectedEof);
}
