use rofd::value::{parse_bool, parse_i32, parse_uint, is_float_literal, ParseStBoxError, StArray, StBox, ValueError};
use rofd::container::read_item;

fn text_of(xml: &str) -> String {
    read_item(xml.as_bytes()).expect("well-formed XML").text
}

#[test]
fn test_stbox_de() {
    let r = StBox::from_str(&text_of("<StBox xmlns=\"urn:test\">0 0 160 35.5</StBox>")).unwrap();
    let nums: Vec<f32> = [&r.x, &r.y, &r.w, &r.h].iter().map(|s| s.parse::<f32>().unwrap()).collect();
    assert_eq!(nums, vec![0.0, 0.0, 160.0, 35.5]);
}

#[test]
fn test_st_array_de() {
    let res = StArray::<u32>::from_str(&text_of("<e xmlns=\"urn:test\">2 3 4</e>")).unwrap();
    assert_eq!(res, StArray(vec![2, 3, 4]));
}

#[test]
fn test_st_array_blank_de() {
    let res = StArray::<String>::from_str(&text_of(
        "<e xmlns=\"urn:test\">g 4 1.5875  3.175 g 2 1.5875  3.175 g 2 1.5875 -19.05</e>",
    ));
    assert_eq!(
        res.0,
        vec!["g", "4", "1.5875", "3.175", "g", "2", "1.5875", "3.175", "g", "2", "1.5875", "-19.05"]
    );
}

#[test]
fn test_sequence_of_str() {
    let res = StArray::<u32>::from_str(&text_of("<Data xmlns=\"urn:test\">12 13 15</Data>")).unwrap();
    assert_eq!(res, StArray(vec![12, 13, 15]));
}

#[test]
fn uint_arrays_are_written_back_as_read() {
    let a = StArray(vec![7u32, 0, 4294967295]);
    let s = a.to_string();
    assert_eq!(s, "7 0 4294967295");
    assert_eq!(StArray::<u32>::from_str(&s).unwrap(), a);
}

#[test]
fn word_arrays_are_written_back_as_read() {
    let a = StArray(vec!["g".to_string(), "2".to_string(), "1.5".to_string()]);
    let s = a.to_string();
    assert_eq!(s, "g 2 1.5");
    assert_eq!(StArray::<String>::from_str(&s), a);
}

#[test]
fn uint_array_rejects_a_word() {
    assert_eq!(StArray::<u32>::from_str("1 x 3"), Err(ValueError::ParseInt));
    assert_eq!(StArray::<u16>::from_str("70000"), Err(ValueError::ParseInt));
    assert_eq!(StArray::<u16>::from_str(" 1  2 "), Ok(StArray(vec![1u16, 2])));
}

#[test]
fn float_arrays_keep_literals() {
    let a = StArray::<String>::floats_from_str("1.5 -2 inf").unwrap();
    assert_eq!(a.0, vec!["1.5", "-2", "inf"]);
    assert_eq!(StArray::<String>::floats_from_str("1.5 abc"), Err(ValueError::ParseFloat));
}

#[test]
fn unsigned_integers() {
    assert_eq!(parse_uint("42", 100), Some(42));
    assert_eq!(parse_uint("+42", 100), Some(42));
    assert_eq!(parse_uint("101", 100), None);
    assert_eq!(parse_uint("", 100), None);
    assert_eq!(parse_uint("-1", 100), None);
    assert_eq!(parse_uint("18446744073709551615", u64::MAX), Some(u64::MAX));
    assert_eq!(parse_uint("18446744073709551616", u64::MAX), None);
}

#[test]
fn signed_integers() {
    assert_eq!(parse_i32("-2147483648"), Some(i32::MIN));
    assert_eq!(parse_i32("2147483647"), Some(i32::MAX));
    assert_eq!(parse_i32("2147483648"), None);
    assert_eq!(parse_i32("-0"), Some(0));
}

#[test]
fn booleans() {
    assert_eq!(parse_bool("true"), Some(true));
    assert_eq!(parse_bool("false"), Some(false));
    assert_eq!(parse_bool("True"), None);
    assert_eq!(parse_bool("1"), None);
}

#[test]
fn float_literals() {
    for s in ["1", "1.", ".5", "-1.5e3", "+2E-2", "inf", "-infinity", "NaN", "1e10"] {
        assert!(is_float_literal(s), "{s}");
        assert!(s.parse::<f32>().is_ok(), "{s}");
    }
    for s in ["", ".", "e5", "1e", "1.2.3", "0x10", "abc", "1 2"] {
        assert!(!is_float_literal(s), "{s}");
        assert!(s.parse::<f32>().is_err(), "{s}");
    }
}

#[test]
fn boxes() {
    let b = StBox::from_str("  1 2.5 3 4 ").unwrap();
    assert_eq!((b.x.as_str(), b.y.as_str(), b.w.as_str(), b.h.as_str()), ("1", "2.5", "3", "4"));
    assert!(matches!(StBox::from_str("1 2 3"), Err(ParseStBoxError::ElementFormat)));
    assert!(matches!(StBox::from_str("1 2 3 x"), Err(ParseStBoxError::ElementFormat)));
    let z = StBox::zero();
    assert_eq!((z.x.as_str(), z.y.as_str(), z.w.as_str(), z.h.as_str()), ("0", "0", "0", "0"));
}
