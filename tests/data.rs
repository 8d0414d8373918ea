// Typed reading of element payloads.

use ebml::common::{Element, ElementContent, FloatBits};
use ebml::element::Data;
use ebml::error::Error;

fn float_of(bits: FloatBits) -> f64 {
    match bits {
        FloatBits::Single(b) => f32::from_bits(b) as f64,
        FloatBits::Double(b) => f64::from_bits(b),
    }
}

#[test]
fn elem_data_string() {
    let data = vec![0x57, 0x65, 0x73, 0x68, 0x20, 0x50, 0x6f, 0x74, 0x6f];
    let elem = Element::new(42, data.clone());

    assert_eq!(elem.content().into_utf8().unwrap(), "Wesh Poto".to_owned());
}

#[test]
fn elem_data_unsigned_integer() {
    let data = vec![0x06, 0x79, 0x32];
    let elem = Element::new(42, data.clone());

    assert_eq!(elem.content().into_int(), 424242 as i64);
}

#[test]
fn elem_data_signed_integer() {
    let data = vec![0xff, 0xff, 0xff, 0xff, 0xff, 0xff, 0x29, 0xa6];
    let elem = Element::new(42, data.clone());

    assert_eq!(elem.content().into_int(), -54874 as i64);
}

#[test]
fn elem_data_float() {
    let data = vec![0x42, 0x28, 0xe3, 0x54];
    let elem = Element::new(42, data.clone());

    let bits = elem.content().into_float().unwrap();
    assert_eq!(f32::from_bits(match bits {
        FloatBits::Single(b) => b,
        FloatBits::Double(_) => panic!("expected a binary32"),
    }), 42.222 as f32);
}

#[test]
fn elem_data_double() {
    let data = vec![0x40, 0xeb, 0x35, 0x8d, 0x4d, 0xad, 0xe1, 0x8b];
    let elem = Element::new(42, data.clone());

    assert_eq!(float_of(elem.content().into_float().unwrap()), 55724.415732327 as f64);
}

#[test]
fn content_unsigned_three_octets() {
    assert_eq!(ElementContent::new(vec![0x06, 0x79, 0x32]).into_uint(), 424242);
}

#[test]
fn content_empty_reads_zero() {
    assert_eq!(ElementContent::new(vec![]).into_uint(), 0);
    assert_eq!(ElementContent::new(vec![]).into_int(), 0);
}

#[test]
fn content_short_negative_pattern_does_not_sign_extend() {
    // The top bit of a short payload is not a sign bit: 0xff reads as 255.
    assert_eq!(ElementContent::new(vec![0xff]).into_int(), 255);
    assert_eq!(ElementContent::new(vec![0xff; 8]).into_int(), -1);
}

#[test]
fn content_float_bits_exact() {
    assert_eq!(
        ElementContent::new(vec![0x42, 0x28, 0xe3, 0x54]).into_float().unwrap(),
        FloatBits::Single(0x4228e354)
    );
    assert_eq!(
        ElementContent::new(vec![1, 2, 3, 4, 5, 6, 7, 8]).into_float().unwrap(),
        FloatBits::Double(0x0102030405060708)
    );
}

#[test]
fn content_float_invalid_size() {
    assert_eq!(
        ElementContent::new(vec![1, 2, 3]).into_float().unwrap_err(),
        Error::InvalidFloatSize
    );
}

#[test]
fn content_invalid_utf8() {
    assert_eq!(
        ElementContent::new(vec![0x61, 0xff, 0x62]).into_utf8().unwrap_err(),
        Error::InvalidUtf8
    );
}

#[test]
fn content_utf8_multibyte() {
    let text = ElementContent::new(vec![0x63, 0x61, 0x66, 0xc3, 0xa9]).into_utf8().unwrap();
    assert_eq!(text, "café");
    assert_eq!(text.chars().count(), 4);
}

#[test]
fn data_coercions() {
    let d = Data::new(Some(vec![0x06, 0x79, 0x32]));
    assert_eq!(d.to_unsigned_int().unwrap(), 424242);
    assert_eq!(d.to_signed_int().unwrap(), 424242);
    assert_eq!(d.to_float().unwrap_err(), Error::InvalidFloatSize);
    assert_eq!(d.take().unwrap(), vec![0x06, 0x79, 0x32]);

    let neg = Data::new(Some(vec![0xff, 0xff, 0xff, 0xff, 0xff, 0xff, 0x29, 0xa6]));
    assert_eq!(neg.to_signed_int().unwrap(), -54874);

    let f = Data::new(Some(vec![0x42, 0x28, 0xe3, 0x54]));
    assert_eq!(float_of(f.to_float().unwrap()), 42.222f32 as f64);

    let text = Data::new(Some(b"matroska".to_vec()));
    assert_eq!(text.to_utf8().unwrap(), "matroska");
}

#[test]
fn data_absent_has_no_data() {
    let d = Data::new(None);
    assert_eq!(d.to_unsigned_int().unwrap_err(), Error::NoData);
    assert_eq!(d.to_signed_int().unwrap_err(), Error::NoData);
    assert_eq!(d.to_float().unwrap_err(), Error::NoData);
    assert_eq!(d.to_utf8().unwrap_err(), Error::NoData);
    assert_eq!(d.take().unwrap_err(), Error::NoData);
}

#[test]
fn data_integer_too_long() {
    let d = Data::new(Some(vec![0; 9]));
    assert_eq!(d.to_unsigned_int().unwrap_err(), Error::InvalidIntegerSize);
    assert_eq!(d.to_signed_int().unwrap_err(), Error::InvalidIntegerSize);
}
