use rofd::der::{parse_single, Tag, Value};
use rofd::error::Error;

#[test]
fn der_it_works() -> Result<(), Error> {
    let data = [0x30_u8, 0x03, 0x02, 0x01, 0x09];
    let v = parse_single(&data)?;
    assert_eq!(v.tag, Tag::Sequence);
    assert_eq!(v.item_count(), 1);

    let data2 = [0x30, 0x06, 0x80, 0x01, 0x09, 0x81, 0x01, 0x09];
    let v = parse_single(&data2)?;
    assert_eq!(v.item_count(), 2);
    Ok(())
}

#[test]
fn der_primitive_integer() {
    let v = parse_single(&[0x02, 0x01, 0x09]).unwrap();
    assert_eq!(v.tag, Tag::Integer);
    assert_eq!(v.item_count(), 1);
    match v.value {
        Value::Primitive(bytes) => assert_eq!(bytes, vec![0x09]),
        Value::Nested(_) => panic!("expected a primitive value"),
    }
}

#[test]
fn der_truncated_is_io_error() {
    assert_eq!(parse_single(&[0x30, 0x05, 0x02, 0x01]).unwrap_err(), Error::IoError);
}

#[test]
fn der_empty_sequence_cannot_nest() {
    assert_eq!(parse_single(&[0x30, 0x00]).unwrap_err(), Error::ConvertError);
}

#[test]
fn der_long_form_length() {
    let mut data = vec![0x04, 0x81, 0x80];
    data.extend(std::iter::repeat(7u8).take(0x80));
    let v = parse_single(&data).unwrap();
    assert_eq!(v.tag, Tag::OctetString);
    match v.value {
        Value::Primitive(bytes) => assert_eq!(bytes.len(), 0x80),
        Value::Nested(_) => panic!("expected a primitive value"),
    }
}

#[test]
fn readability_is_checked_before_reading() {
    assert!(rofd::der::is_readable(&[0x30, 0x03, 0x02, 0x01, 0x05]));
    assert!(rofd::der::is_readable(&[0x04, 0x05, 0x01]));
    // a length announced in nine octets
    assert!(!rofd::der::is_readable(&[0x04, 0x89, 1, 2, 3, 4, 5, 6, 7, 8, 9]));
    // inside a sequence too
    assert!(!rofd::der::is_readable(&[0x30, 0x03, 0x04, 0x89, 0x00]));
    // a length too large to allocate
    assert!(!rofd::der::is_readable(&[0x04, 0x88, 0x80, 0, 0, 0, 0, 0, 0, 0]));
}
