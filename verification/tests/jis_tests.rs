//! Tests of the JIS X 0208 codec.

use epwing::jis0208::decode_codepoint;
use epwing::jis0208::decode_codepoints;
use epwing::jis0208::decode_string;
use epwing::jis0208::encode_codepoint;

#[test]
fn test_decode() {
    assert_eq!(decode_codepoint(0x2341), std::char::from_u32(0xff21));
    assert_eq!(decode_codepoint(0x3000), None);
}

#[test]
fn test_decode_string() {
    assert_eq!(Some("あい".to_string()), decode_string(b"\x24\x22\x24\x24"));
}

#[test]
fn test_decode_codepoints_all_mapped() {
    assert_eq!(decode_codepoints(&[0x2422, 0x2424]), Some("あい".to_string()));
    assert_eq!(decode_codepoints(&[]), Some(String::new()));
}

#[test]
fn test_decode_codepoints_failure() {
    // 0x2f21 lies in an unassigned row, 0x3000 has a byte out of range
    assert_eq!(decode_codepoints(&[0x2422, 0x2f21]), None);
    assert_eq!(decode_string(b"\x24\x22\x30\x00"), None);
}

#[test]
fn test_encode_codepoint() {
    assert_eq!(encode_codepoint('Ａ'), Some(0x2341));
    assert_eq!(encode_codepoint('あ'), Some(0x2422));
    assert_eq!(encode_codepoint('\u{3000}'), Some(0x2121));
    // plain ASCII has no JIS X 0208 code point
    assert_eq!(encode_codepoint('e'), None);
}

#[test]
fn test_decode_inverts_encode() {
    for ch in ['Ａ', 'あ', 'ん', '漢', '→', '\u{3000}'] {
        let cp = encode_codepoint(ch).unwrap();
        assert_eq!(decode_codepoint(cp), Some(ch));
    }
}
