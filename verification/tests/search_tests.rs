//! Tests of the index-tree search.

use epwing::Error;
use epwing::canon::Canonicalization;
use epwing::canon::CanonicalizationRules;
use epwing::canon::CanonicalizeExt;
use epwing::subbook::Index;
use epwing::subbook::Location;
use epwing::subbook::Subbook;
use epwing::util::ToJisString;

fn put(data: &mut [u8], off: usize, bytes: &[u8]) {
    data[off..off + bytes.len()].copy_from_slice(bytes);
}

/// The rules a descriptor with all-zero flag bytes derives.
fn zero_flag_rules() -> CanonicalizationRules {
    CanonicalizationRules {
        katakana: Canonicalization::Convert,
        lower: Canonicalization::Convert,
        mark: Canonicalization::Delete,
        long_vowel: Canonicalization::Convert,
        double_consonant: Canonicalization::Convert,
        contracted_sound: Canonicalization::Convert,
        small_vowel: Canonicalization::Convert,
        voiced_consonant: Canonicalization::Convert,
        p_sound: Canonicalization::Convert,
        space: Canonicalization::Delete,
    }
}

/// The on-disk byte form a query takes under the zero-flag rules.
fn query_bytes(word: &str) -> Vec<u8> {
    word.canonicalize(&zero_flag_rules()).as_str().to_jis_string()
}

/// A header page declaring one word index rooted at 0-based page 1.
fn header_with_word_index(data: &mut [u8]) {
    data[1] = 1; // one descriptor
    data[4] = 0; // global availability
    data[16] = 0x91; // word index, query as is
    put(data, 18, &2u32.to_be_bytes()); // root: stored 1-based page 2
    put(data, 22, &2u32.to_be_bytes()); // extent in pages
    // avail and the flag bytes stay zero
}

/// A subbook whose word index descends one internal node into a
/// variable-length leaf holding one entry per (name, location) pair.
fn variable_leaf_book(entries: &[(&str, u32, u16)]) -> Subbook {
    let mut data = vec![0u8; 3 * 2048];
    header_with_word_index(&mut data);

    // internal node at page 1: one entry, name = the last entry's name
    let guide = query_bytes(entries.last().unwrap().0);
    let p1 = 2048;
    data[p1] = 0x00;
    data[p1 + 1] = guide.len() as u8;
    put(&mut data, p1 + 2, &1u16.to_be_bytes());
    put(&mut data, p1 + 4, &guide);
    put(&mut data, p1 + 4 + guide.len(), &3u32.to_be_bytes()); // child: stored page 3

    // variable-length leaf at page 2
    let p2 = 2 * 2048;
    data[p2] = 0x80;
    data[p2 + 1] = 0;
    put(&mut data, p2 + 2, &(entries.len() as u16).to_be_bytes());
    let mut e = p2 + 4;
    for (word, page, offset) in entries {
        let name = query_bytes(word);
        data[e] = name.len() as u8;
        put(&mut data, e + 1, &name);
        put(&mut data, e + 1 + name.len(), &(page + 1).to_be_bytes());
        put(&mut data, e + 1 + name.len() + 4, &offset.to_be_bytes());
        // the discarded head page and offset stay zero
        e += 1 + name.len() + 12;
    }
    Subbook::from_io(data).unwrap()
}

#[test]
fn keyword_search_test() {
    let sbook = variable_leaf_book(&[("environmental protection", 100, 4), (
        "environmental stress",
        24561,
        1264,
    )]);

    let result = sbook.search(Index::WordAsIs, "environmental stress").unwrap();

    assert_eq!(result.len(), 1);
    assert_eq!(result[0], Location { page: 24561, offset: 1264 });
}

#[test]
fn search_misses_cleanly() {
    let sbook = variable_leaf_book(&[("environmental stress", 24561, 1264)]);

    // canonicalizes after every guide name: the internal node sends the
    // descent nowhere
    assert_eq!(sbook.search(Index::WordAsIs, "zzz").unwrap(), vec![]);
    // reaches the leaf but matches no entry name
    assert_eq!(sbook.search(Index::WordAsIs, "env").unwrap(), vec![]);
}

#[test]
fn search_matches_all_equal_names() {
    let sbook = variable_leaf_book(&[
        ("stress", 7, 1),
        ("stress", 8, 2),
        ("tension", 9, 3),
    ]);

    let result = sbook.search(Index::WordAsIs, "stress").unwrap();
    assert_eq!(result, vec![
        Location { page: 7, offset: 1 },
        Location { page: 8, offset: 2 },
    ]);
}

#[test]
fn grouped_leaf_search() {
    let mut data = vec![0u8; 3 * 2048];
    header_with_word_index(&mut data);

    let word = query_bytes("environmental stress");
    let other = query_bytes("zinc");

    // internal node at page 1 guides everything to the leaf
    let p1 = 2048;
    data[p1] = 0x00;
    data[p1 + 1] = other.len() as u8;
    put(&mut data, p1 + 2, &1u16.to_be_bytes());
    put(&mut data, p1 + 4, &other);
    put(&mut data, p1 + 4 + other.len(), &3u32.to_be_bytes());

    // grouped leaf at page 2: a matching group of two entries, then
    // another group with one
    let p2 = 2 * 2048;
    data[p2] = 0x90;
    data[p2 + 1] = 0;
    put(&mut data, p2 + 2, &5u16.to_be_bytes());
    let mut e = p2 + 4;
    data[e] = 0x80;
    data[e + 1] = word.len() as u8;
    put(&mut data, e + 6, &word);
    e += 6 + word.len();
    for (page, offset) in [(10u32, 5u16), (20, 7)] {
        data[e] = 0xc0;
        put(&mut data, e + 1, &(page + 1).to_be_bytes());
        put(&mut data, e + 5, &offset.to_be_bytes());
        e += 7;
    }
    data[e] = 0x80;
    data[e + 1] = other.len() as u8;
    put(&mut data, e + 6, &other);
    e += 6 + other.len();
    data[e] = 0xc0;
    put(&mut data, e + 1, &31u32.to_be_bytes());
    put(&mut data, e + 5, &9u16.to_be_bytes());

    let sbook = Subbook::from_io(data).unwrap();

    let result = sbook.search(Index::WordAsIs, "environmental stress").unwrap();
    assert_eq!(result, vec![
        Location { page: 10, offset: 5 },
        Location { page: 20, offset: 7 },
    ]);

    let result2 = sbook.search(Index::WordAsIs, "zinc").unwrap();
    assert_eq!(result2, vec![Location { page: 30, offset: 9 }]);
}

#[test]
fn internal_node_picks_first_entry_at_or_after_query() {
    // two internal entries: queries after the first guide name descend
    // into the second child
    let mut data = vec![0u8; 4 * 2048];
    header_with_word_index(&mut data);

    let guide1 = query_bytes("middle");
    let guide2 = query_bytes("zzzzzz");
    assert_eq!(guide1.len(), guide2.len());

    let p1 = 2048;
    data[p1] = 0x00;
    data[p1 + 1] = guide1.len() as u8;
    put(&mut data, p1 + 2, &2u16.to_be_bytes());
    let mut e = p1 + 4;
    put(&mut data, e, &guide1);
    put(&mut data, e + guide1.len(), &3u32.to_be_bytes()); // child: page 2
    e += guide1.len() + 4;
    put(&mut data, e, &guide2);
    put(&mut data, e + guide2.len(), &4u32.to_be_bytes()); // child: page 3

    for (page_index, word) in [(2usize, "alpha"), (3, "tau")] {
        let name = query_bytes(word);
        let p = page_index * 2048;
        data[p] = 0x80;
        data[p + 1] = 0;
        put(&mut data, p + 2, &1u16.to_be_bytes());
        let e = p + 4;
        data[e] = name.len() as u8;
        put(&mut data, e + 1, &name);
        put(&mut data, e + 1 + name.len(), &8u32.to_be_bytes());
        put(&mut data, e + 1 + name.len() + 4, &(page_index as u16).to_be_bytes());
    }

    let sbook = Subbook::from_io(data).unwrap();

    // before the first guide name: the first child is searched
    assert_eq!(
        sbook.search(Index::WordAsIs, "alpha").unwrap(),
        vec![Location { page: 7, offset: 2 }]
    );
    // between the guide names: the second child is searched
    assert_eq!(
        sbook.search(Index::WordAsIs, "tau").unwrap(),
        vec![Location { page: 7, offset: 3 }]
    );
    // the descent lands in the right leaf, whose names do not match
    assert_eq!(sbook.search(Index::WordAsIs, "nu").unwrap(), vec![]);
}

#[test]
fn search_without_word_index() {
    // a header declaring no indices offers no word search
    let sbook = Subbook::from_io(vec![0u8; 2048]).unwrap();
    assert!(matches!(
        sbook.search(Index::WordAsIs, "anything"),
        Err(Error::IndexNotAvailable)
    ));
}

#[test]
fn unknown_group_tag_is_malformed() {
    let mut data = vec![0u8; 2 * 2048];
    header_with_word_index(&mut data);

    // the root page itself is a grouped leaf whose first record tag is bad
    put(&mut data, 18, &2u32.to_be_bytes());
    let p1 = 2048;
    data[p1] = 0x90;
    put(&mut data, p1 + 2, &1u16.to_be_bytes());
    data[p1 + 4] = 0x01;

    let sbook = Subbook::from_io(data).unwrap();
    assert!(matches!(
        sbook.search(Index::WordAsIs, "anything"),
        Err(Error::InvalidFormat)
    ));
}

#[test]
fn index_flags_drive_canonicalization() {
    // the descriptor's flag bits set the lower rule to keep case, so the
    // query must match a lowercase fullwidth name
    let mut data = vec![0u8; 3 * 2048];
    header_with_word_index(&mut data);
    data[27] = 0x10; // two-bit lower field reads 1: keep case

    let mut keep_case = zero_flag_rules();
    keep_case.lower = Canonicalization::AsIs;
    let name = "stress".canonicalize(&keep_case).as_str().to_jis_string();
    assert_eq!(name.len(), 12); // ｓｔｒｅｓｓ, lowercase fullwidth

    let p1 = 2048;
    data[p1] = 0x00;
    data[p1 + 1] = name.len() as u8;
    put(&mut data, p1 + 2, &1u16.to_be_bytes());
    put(&mut data, p1 + 4, &name);
    put(&mut data, p1 + 4 + name.len(), &3u32.to_be_bytes());

    let p2 = 2 * 2048;
    data[p2] = 0x80;
    data[p2 + 1] = 0;
    put(&mut data, p2 + 2, &1u16.to_be_bytes());
    let e = p2 + 4;
    data[e] = name.len() as u8;
    put(&mut data, e + 1, &name);
    put(&mut data, e + 1 + name.len(), &5u32.to_be_bytes());
    put(&mut data, e + 1 + name.len() + 4, &6u16.to_be_bytes());

    let sbook = Subbook::from_io(data).unwrap();
    assert_eq!(
        sbook.search(Index::WordAsIs, "stress").unwrap(),
        vec![Location { page: 4, offset: 6 }]
    );
}

#[test]
fn truncated_header_rejects_the_subbook() {
    assert!(matches!(Subbook::from_io(vec![0u8; 4]), Err(Error::InvalidFormat)));
    // a header declaring more descriptors than it holds bytes for
    let mut data = vec![0u8; 32];
    data[1] = 2;
    assert!(matches!(Subbook::from_io(data), Err(Error::InvalidFormat)));
}

#[test]
fn malformed_flags_reject_the_subbook() {
    let mut data = vec![0u8; 2048];
    header_with_word_index(&mut data);
    data[27] = 0xc0; // a two-bit rule field of 3
    assert!(matches!(Subbook::from_io(data), Err(Error::InvalidFormat)));
}
