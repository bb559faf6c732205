//! Tests of the text decoder and the plaintext projection.

use epwing::ToPlaintext;
use epwing::Error;
use epwing::subbook::Location;
use epwing::subbook::Subbook;
use epwing::text::TextElement;
use epwing::util::ToJisString;

/// Folds ASCII to its fullwidth form and encodes to JIS bytes, as narrow
/// text is stored on disk.
fn narrow_jis(s: &str) -> Vec<u8> {
    let folded: String = s
        .chars()
        .map(|c| {
            if c == ' ' {
                '\u{3000}'
            } else if c.is_ascii_graphic() {
                char::from_u32(c as u32 - 0x21 + 0xff01).unwrap()
            } else {
                c
            }
        })
        .collect();
    folded.as_str().to_jis_string()
}

/// Wraps a text stream into a subbook whose text area starts at page 1.
fn subbook_with_text(stream: &[u8]) -> Subbook {
    let mut data = vec![0u8; 2048];
    data.extend_from_slice(stream);
    Subbook::from_io(data).unwrap()
}

fn title_page_stream() -> Vec<u8> {
    let mut t = vec![0x1f, 0x02, 0x1f, 0x04]; // start text, narrow on
    t.extend_from_slice(&[0x1f, 0x09, 0x00, 0x01]); // indent 1
    for line in [
        "→ About this conversion",
        "→ General dictionary license statement",
        "→ JMDict information",
    ] {
        t.extend_from_slice(&[0x1f, 0x42]); // begin reference
        t.extend_from_slice(&narrow_jis(line));
        t.extend_from_slice(&[0x1f, 0x62, 0, 0, 0, 0, 0, 0]); // end reference
        t.extend_from_slice(&[0x1f, 0x0a]); // newline
    }
    t.extend_from_slice(&[0x1f, 0x03]); // end text
    t
}

#[test]
fn title_test() {
    let sbook = subbook_with_text(&title_page_stream());
    let text = sbook.read_text(Location::page(1)).unwrap();

    assert_eq!(
        text,
        vec![
            TextElement::Indent(1),
            TextElement::Unsupported("ref".to_string()),
            TextElement::UnicodeString("→ About this conversion".to_string()),
            TextElement::Unsupported("/ref".to_string()),
            TextElement::Newline,
            TextElement::Unsupported("ref".to_string()),
            TextElement::UnicodeString("→ General dictionary license statement".to_string()),
            TextElement::Unsupported("/ref".to_string()),
            TextElement::Newline,
            TextElement::Unsupported("ref".to_string()),
            TextElement::UnicodeString("→ JMDict information".to_string()),
            TextElement::Unsupported("/ref".to_string()),
            TextElement::Newline,
        ]
    );
}

#[test]
fn plaintext_test() {
    let sbook = subbook_with_text(&title_page_stream());
    let text = sbook.read_text(Location::page(1)).unwrap();

    assert_eq!(
        text.to_plaintext(),
        " <ref>→ About this conversion</ref>\n<ref>→ General dictionary license statement</ref>\n<ref>→ JMDict information</ref>\n"
    );
}

#[test]
fn keyword_delimits_entry() {
    // the second occurrence of keyword 1 ends the read
    let mut t = vec![0x1f, 0x41, 0x00, 0x01];
    t.extend_from_slice(&[0x24, 0x22]); // あ
    t.extend_from_slice(&[0x1f, 0x41, 0x00, 0x02]); // a different keyword: kept reading
    t.extend_from_slice(&[0x24, 0x24]); // い
    t.extend_from_slice(&[0x1f, 0x41, 0x00, 0x01]);
    t.extend_from_slice(&[0x24, 0x26]); // unreached
    t.extend_from_slice(&[0x1f, 0x03]);

    let sbook = subbook_with_text(&t);
    let text = sbook.read_text(Location::page(1)).unwrap();
    assert_eq!(text, vec![TextElement::UnicodeString("あい".to_string())]);
}

#[test]
fn characters_coalesce_into_one_string() {
    // two characters with a no-op escape between them still form one run
    let t = [0x24, 0x22, 0x1f, 0x61, 0x24, 0x24, 0x1f, 0x03];
    let sbook = subbook_with_text(&t);
    let text = sbook.read_text(Location::page(1)).unwrap();
    assert_eq!(text, vec![TextElement::UnicodeString("あい".to_string())]);

    // an unmapped pair becomes a custom character and splits the runs
    let t2 = [0x24, 0x22, 0x2f, 0x21, 0x24, 0x24, 0x1f, 0x03];
    let sbook2 = subbook_with_text(&t2);
    let text2 = sbook2.read_text(Location::page(1)).unwrap();
    assert_eq!(
        text2,
        vec![
            TextElement::UnicodeString("あ".to_string()),
            TextElement::CustomCharacter(0x2f21),
            TextElement::UnicodeString("い".to_string()),
        ]
    );
}

#[test]
fn narrow_mode_is_toggled() {
    // the same pair reads fullwidth once narrow mode ends
    let t = [0x1f, 0x04, 0x23, 0x41, 0x1f, 0x05, 0x23, 0x41, 0x1f, 0x03];
    let sbook = subbook_with_text(&t);
    let text = sbook.read_text(Location::page(1)).unwrap();
    assert_eq!(text, vec![TextElement::UnicodeString("AＡ".to_string())]);
}

#[test]
fn structural_elements_decode() {
    let t = [
        0x1f, 0x06, 0x1f, 0x07, // sub on/off
        0x1f, 0x0e, 0x1f, 0x0f, // sup on/off
        0x1f, 0x10, 0x1f, 0x11, // nobr on/off
        0x1f, 0xe0, 0x00, 0x03, // begin decoration 3
        0x1f, 0xe1, // end decoration
        0x1f, 0x03,
    ];
    let sbook = subbook_with_text(&t);
    let text = sbook.read_text(Location::page(1)).unwrap();
    assert_eq!(
        text,
        vec![
            TextElement::Unsupported("sub".to_string()),
            TextElement::Unsupported("/sub".to_string()),
            TextElement::Unsupported("sup".to_string()),
            TextElement::Unsupported("/sup".to_string()),
            TextElement::NoNewline(true),
            TextElement::NoNewline(false),
            TextElement::BeginDecoration(3),
            TextElement::EndDecoration,
        ]
    );
}

#[test]
fn unknown_escape_is_malformed() {
    let t = [0x24, 0x22, 0x1f, 0x99, 0x1f, 0x03];
    let sbook = subbook_with_text(&t);
    assert!(matches!(sbook.read_text(Location::page(1)), Err(Error::InvalidFormat)));
}

#[test]
fn missing_terminator_is_malformed() {
    let t = [0x24, 0x22, 0x24, 0x24];
    let sbook = subbook_with_text(&t);
    assert!(matches!(sbook.read_text(Location::page(1)), Err(Error::InvalidFormat)));

    // a location beyond the data is malformed too
    assert!(matches!(sbook.read_text(Location::page(9)), Err(Error::InvalidFormat)));
}

#[test]
fn location_page_constructor() {
    assert_eq!(Location::page(5), Location { page: 5, offset: 0 });
}
