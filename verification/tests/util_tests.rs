//! Tests of width folding, JIS string conversion and byte helpers.

use epwing::Error;
use epwing::util::CharWidthExt;
use epwing::util::ToJisString;
use epwing::util::ToUnicodeString;
use epwing::util::bytes_eq;
use epwing::util::bytes_le;
use epwing::util::ReaderJisExt;

#[test]
fn test_conversion_roundtrip() {
    let a = "ｅｎｖｉｒｏｎｍｅｎｔａｌ　ｓｔｒｅｓｓ";

    let b = a.to_jis_string();
    assert_eq!(b.as_slice(), b"#e#n#v#i#r#o#n#m#e#n#t#a#l!!#s#t#r#e#s#s");

    let c = b.as_slice().to_unicode_string();
    assert_eq!(c.as_str(), a);
}

#[test]
fn test_width_folding() {
    assert_eq!('a'.to_fullwidth(), 'ａ');
    assert_eq!(' '.to_fullwidth(), '\u{3000}');
    assert_eq!('→'.to_fullwidth(), '→');
    assert_eq!('カ'.to_fullwidth(), 'カ');

    assert_eq!('ａ'.to_standard_width(), 'a');
    assert_eq!('\u{3000}'.to_standard_width(), ' ');
    assert_eq!('ｶ'.to_standard_width(), 'カ');
    assert_eq!('→'.to_standard_width(), '→');
}

#[test]
fn test_read_jis_string_drops_zero_pairs() {
    let data = [0x23u8, 0x41, 0x00, 0x00, 0x23, 0x42, 0x99];
    assert_eq!(data.read_jis_string(0, 6), Some(vec![0x23, 0x41, 0x23, 0x42]));
    assert_eq!(data.read_jis_string(2, 4), Some(vec![0x23, 0x42]));
    // runs past the end of the buffer
    assert_eq!(data.read_jis_string(4, 4), None);
}

#[test]
fn test_convert_jis_string_le() {
    // little-endian code points for "あい", then a zero terminator
    let data = [0x22u8, 0x24, 0x24, 0x24, 0x00, 0x00, 0x41, 0x23];
    assert_eq!(data.convert_jis_string(0, 8), Ok(Some("あい".to_string())));
    // an unmapped code point before the terminator
    let bad = [0x21u8, 0x2f, 0x00, 0x00];
    assert_eq!(bad.convert_jis_string(0, 4), Ok(None));
    // field longer than the buffer
    assert_eq!(data.convert_jis_string(4, 6), Err(Error::Io));
}

#[test]
fn test_byte_comparisons() {
    assert!(bytes_le(&vec![], &vec![0x01]));
    assert!(bytes_le(&vec![0x01, 0x02], &vec![0x01, 0x02]));
    assert!(bytes_le(&vec![0x01, 0x02], &vec![0x01, 0x03]));
    assert!(bytes_le(&vec![0x01, 0x02], &vec![0x02]));
    assert!(!bytes_le(&vec![0x01, 0x02], &vec![0x01]));
    assert!(!bytes_le(&vec![0x02], &vec![0x01, 0xff]));

    assert!(bytes_eq(&vec![0x01, 0x02], &vec![0x01, 0x02]));
    assert!(!bytes_eq(&vec![0x01, 0x02], &vec![0x01]));
    assert!(!bytes_eq(&vec![0x01, 0x02], &vec![0x01, 0x03]));
}
