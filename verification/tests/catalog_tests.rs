//! Tests of the `CATALOGS` parser and the book facade.

use epwing::Book;
use epwing::Error;
use epwing::catalog::Catalog;
use epwing::catalog::trim_zero_cp;

/// One `CATALOGS` file holding a single subbook entry.
fn one_subbook_catalog(title_jis: &[u8], directory: &[u8], index_page: u16) -> Vec<u8> {
    assert_eq!(directory.len(), 8);
    let mut data = vec![0u8; 16 + 96];
    data[1] = 1; // one subbook
    data[3] = 1; // format version
    let entry = 16;
    data[entry + 2..entry + 2 + title_jis.len()].copy_from_slice(title_jis);
    data[entry + 82..entry + 90].copy_from_slice(directory);
    data[entry + 94] = (index_page >> 8) as u8;
    data[entry + 95] = index_page as u8;
    data
}

// "ＪＭＤＩＣＴ" in JIS X 0208
const TITLE_JMDICT: [u8; 12] = [0x23, 0x4a, 0x23, 0x4d, 0x23, 0x44, 0x23, 0x49, 0x23, 0x43, 0x23,
    0x54];

#[test]
fn catalog_test() {
    let data = one_subbook_catalog(&TITLE_JMDICT, b"TESTBOOK", 7);
    let catalog = Catalog::from_stream(&data).unwrap();

    assert_eq!(catalog.epwing_version, 1);
    assert_eq!(catalog.subbooks.len(), 1);
    assert_eq!(catalog.subbooks[0].title, "ＪＭＤＩＣＴ");
    assert_eq!(catalog.subbooks[0].directory, b"TESTBOOK");
    assert_eq!(catalog.subbooks[0].index_page, 7);
    assert_eq!(catalog.subbooks[0].text_file, b"HONMON");
}

#[test]
fn catalog_short_read() {
    assert!(matches!(Catalog::from_stream(&[0u8; 4]), Err(Error::Io)));
    // claims two subbooks but holds bytes for one
    let mut data = one_subbook_catalog(&TITLE_JMDICT, b"TESTBOOK", 7);
    data[1] = 2;
    assert!(matches!(Catalog::from_stream(&data), Err(Error::Io)));
}

#[test]
fn catalog_invalid_encoding() {
    // 0x01 0x01 is no JIS X 0208 pair
    let data = one_subbook_catalog(&[0x01, 0x01], b"TESTBOOK", 7);
    assert!(matches!(Catalog::from_stream(&data), Err(Error::InvalidEncoding)));
}

#[test]
fn catalog_title_stops_at_zero_pair() {
    // a zero pair ends the title; bytes after it are ignored
    let mut title = Vec::new();
    title.extend_from_slice(&TITLE_JMDICT[..4]);
    title.extend_from_slice(&[0x00, 0x00, 0x01, 0x01]);
    let data = one_subbook_catalog(&title, b"TESTBOOK", 7);
    let catalog = Catalog::from_stream(&data).unwrap();
    assert_eq!(catalog.subbooks[0].title, "ＪＭ");
}

#[test]
fn test_trim_zero_cp() {
    assert_eq!(trim_zero_cp(&[0x23, 0x4a, 0x00, 0x00, 0x23, 0x4d]), &[0x23, 0x4a]);
    assert_eq!(trim_zero_cp(&[0x23, 0x4a, 0x23, 0x4d]), &[0x23, 0x4a, 0x23, 0x4d]);
    assert_eq!(trim_zero_cp(&[0x00, 0x00, 0x23, 0x4d]), &[] as &[u8]);
    assert_eq!(trim_zero_cp(&[]), &[] as &[u8]);
    // a zero byte straddling two pairs does not terminate
    assert_eq!(trim_zero_cp(&[0x23, 0x00, 0x00, 0x4d]), &[0x23, 0x00, 0x00, 0x4d]);
}

#[test]
fn book_subbooks_and_path() {
    let data = one_subbook_catalog(&TITLE_JMDICT, b"FOO     ", 7);
    let book = Book::from_catalog_bytes(b"testbook".to_vec(), &data).unwrap();

    assert_eq!(book.subbooks().len(), 1);
    assert_eq!(book.subbooks()[0].title, "ＪＭＤＩＣＴ");

    let spine = &book.subbooks()[0];
    let path = book.subbook_path(spine).unwrap();
    assert_eq!(path, b"testbook/FOO/DATA/HONMON");
}

#[test]
fn book_blank_directory_is_malformed() {
    let data = one_subbook_catalog(&TITLE_JMDICT, b"        ", 7);
    let book = Book::from_catalog_bytes(b"testbook".to_vec(), &data).unwrap();
    let spine = &book.subbooks()[0];
    assert!(matches!(book.subbook_path(spine), Err(Error::InvalidFormat)));
}

#[test]
fn error_descriptions() {
    assert_eq!(Error::Io.description(), "input/output error");
    assert_eq!(Error::InvalidEncoding.description(), "encountered non-JIS X 0208 character");
    assert_eq!(Error::InvalidFormat.description(), "file is malformed");
    assert_eq!(Error::IndexNotAvailable.description(), "requested index is not available");
}
