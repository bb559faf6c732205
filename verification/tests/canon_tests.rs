//! Tests of query canonicalization.

use epwing::canon::Canonicalization;
use epwing::canon::CanonicalizationRules;
use epwing::canon::CanonicalizeExt;

fn all_convert_rules() -> CanonicalizationRules {
    CanonicalizationRules {
        katakana: Canonicalization::Convert,
        lower: Canonicalization::Convert,
        mark: Canonicalization::Delete,
        long_vowel: Canonicalization::Convert,
        double_consonant: Canonicalization::Convert,
        contracted_sound: Canonicalization::Convert,
        small_vowel: Canonicalization::Convert,
        voiced_consonant: Canonicalization::Convert,
        p_sound: Canonicalization::Convert,
        space: Canonicalization::Delete,
    }
}

#[test]
fn test_canonicalize() {
    let c = all_convert_rules();

    assert_eq!(
        "environmental stress".canonicalize(&c),
        "ＥＮＶＩＲＯＮＭＥＮＴＡＬＳＴＲＥＳＳ"
    );
}

#[test]
fn test_canonicalize_space_kept() {
    let mut c = all_convert_rules();
    c.space = Canonicalization::AsIs;
    assert_eq!("a b".canonicalize(&c), "Ａ\u{3000}Ｂ");
}

#[test]
fn test_canonicalize_lower_kept() {
    let mut c = all_convert_rules();
    c.lower = Canonicalization::AsIs;
    assert_eq!("ab".canonicalize(&c), "ａｂ");
}

#[test]
fn test_canonicalize_idempotent_samples() {
    let c = all_convert_rules();
    for s in ["environmental stress", "ＪＭＤＩＣＴ", "  mixed  Case  ", "カナkana"] {
        let once = s.canonicalize(&c);
        let twice = once.as_str().canonicalize(&c);
        assert_eq!(twice, once);
    }
}

#[test]
fn test_from_field() {
    assert_eq!(Canonicalization::from_field(0x00), Some(Canonicalization::Convert));
    assert_eq!(Canonicalization::from_field(0x01), Some(Canonicalization::AsIs));
    assert_eq!(Canonicalization::from_field(0x02), Some(Canonicalization::Delete));
    assert_eq!(Canonicalization::from_field(0x03), None);
    assert_eq!(Canonicalization::from_field(0xff), None);
}
