//! A subbook: its parsed index table and the searches and text reads that
//! run against its data file.

use vstd::prelude::*;

use crate::Error;
use crate::canon::Canonicalization;
use crate::canon::CanonicalizationRules;
use crate::canon::CanonicalizeExt;
use crate::canon::spec_canonicalize;
pub use crate::text::Text;
pub use crate::text::TextElement;
pub use crate::text::ToPlaintext;

use crate::text::TextDecode;
use crate::text::spec_decode_text;
use crate::text::spec_no_adjacent_strings;
use crate::text::read_text_from;
use crate::util::ToJisString;
use crate::util::spec_to_jis;
use crate::util::be16_at;
use crate::util::be32_at;
use crate::util::bytes_eq;
use crate::util::bytes_le;
use crate::util::ReaderJisExt;
use crate::util::spec_be16;
use crate::util::spec_be32;
use crate::util::spec_jis_pairs;
use crate::util::spec_seq_le;

verus! {

/// One recognized index: its root page, its extent and the rules its
/// entries were canonicalized with.
#[derive(Clone, Copy, Debug)]
pub struct IndexData {
    /// Root page of the index tree, 0-based.
    pub page: u32,
    /// Extent of the index, in pages.
    pub length: u32,
    /// The canonicalization rules the index was built with.
    pub canonicalization: CanonicalizationRules,
}

/// The recognized indices of a subbook.
#[derive(Clone, Copy, Debug)]
pub struct Indices {
    pub menu: Option<IndexData>,
    pub copyright: Option<IndexData>,
    pub word_asis: Option<IndexData>,
}

/// A search index kind a caller can ask for.
#[derive(Clone, Copy, Debug, PartialEq, Eq, Structural)]
pub enum Index {
    WordAsIs,
}

/// An address into a subbook's text area.
#[derive(Clone, Copy, Debug, PartialEq, Eq, Structural)]
pub struct Location {
    /// Page number, 0-based; a page is 2048 bytes.
    pub page: u32,
    /// Byte offset within the page.
    pub offset: u16,
}

impl Location {
    /// The location of the start of a page.
    pub fn page(page: u32) -> (r: Location)
        ensures
            r == (Location { page, offset: 0u16 }),
    {
        Location { page, offset: 0 }
    }
}

// ---------------------------------------------------------------------------
// The index descriptor table of the subbook header.
// ---------------------------------------------------------------------------

/// The space rule of an index: kept as is only for the two
/// space-preserving index kinds, deleted otherwise.
pub open spec fn spec_space_rule(index_id: u8) -> Canonicalization {
    if index_id == 0x72 || index_id == 0x92 {
        Canonicalization::AsIs
    } else {
        Canonicalization::Delete
    }
}

/// The canonicalization rules derived from one index descriptor.  When the
/// availability conditions hold, each rule is a two-bit field of the
/// descriptor's flags; the two fallback rule sets depend on the index kind.
pub open spec fn spec_rules_for(index_id: u8, global_avail: u8, avail: u8, flags: u32) -> Option<
    CanonicalizationRules,
> {
    let space = spec_space_rule(index_id);
    if global_avail == 0x00 || avail == 0x02 || global_avail == 0x02 {
        let katakana = Canonicalization::spec_from_field(((flags & 0xc00000) >> 22) as u8);
        let lower = Canonicalization::spec_from_field(((flags & 0x300000) >> 20) as u8);
        let long_vowel = Canonicalization::spec_from_field(((flags & 0x030000) >> 16) as u8);
        let double_consonant = Canonicalization::spec_from_field(((flags & 0x00c000) >> 14) as u8);
        let contracted_sound = Canonicalization::spec_from_field(((flags & 0x003000) >> 12) as u8);
        let small_vowel = Canonicalization::spec_from_field(((flags & 0x000c00) >> 10) as u8);
        let voiced_consonant = Canonicalization::spec_from_field(((flags & 0x000300) >> 8) as u8);
        let p_sound = Canonicalization::spec_from_field(((flags & 0x0000c0) >> 6) as u8);
        if katakana is None || lower is None || long_vowel is None || double_consonant is None
            || contracted_sound is None || small_vowel is None || voiced_consonant is None
            || p_sound is None {
            None
        } else {
            Some(
                CanonicalizationRules {
                    katakana: katakana->0,
                    lower: lower->0,
                    mark: if (flags & 0x0c0000) >> 18 == 0 {
                        Canonicalization::Delete
                    } else {
                        Canonicalization::AsIs
                    },
                    long_vowel: long_vowel->0,
                    double_consonant: double_consonant->0,
                    contracted_sound: contracted_sound->0,
                    small_vowel: small_vowel->0,
                    voiced_consonant: voiced_consonant->0,
                    p_sound: p_sound->0,
                    space,
                },
            )
        }
    } else if index_id == 0x70 || index_id == 0x90 {
        Some(
            CanonicalizationRules {
                katakana: Canonicalization::Convert,
                lower: Canonicalization::Convert,
                mark: Canonicalization::Delete,
                long_vowel: Canonicalization::Convert,
                double_consonant: Canonicalization::Convert,
                contracted_sound: Canonicalization::Convert,
                small_vowel: Canonicalization::Convert,
                voiced_consonant: Canonicalization::Convert,
                p_sound: Canonicalization::Convert,
                space,
            },
        )
    } else {
        Some(
            CanonicalizationRules {
                katakana: Canonicalization::AsIs,
                lower: Canonicalization::Convert,
                mark: Canonicalization::AsIs,
                long_vowel: Canonicalization::AsIs,
                double_consonant: Canonicalization::AsIs,
                contracted_sound: Canonicalization::AsIs,
                small_vowel: Canonicalization::AsIs,
                voiced_consonant: Canonicalization::AsIs,
                p_sound: Canonicalization::AsIs,
                space,
            },
        )
    }
}

/// Derives the rules of one index descriptor; `None` on a malformed flag
/// field.
fn rules_for(index_id: u8, global_avail: u8, avail: u8, flags: u32) -> (r: Option<
    CanonicalizationRules,
>)
    ensures
        r == spec_rules_for(index_id, global_avail, avail, flags),
{
    let space = if index_id == 0x72 || index_id == 0x92 {
        Canonicalization::AsIs
    } else {
        Canonicalization::Delete
    };
    if global_avail == 0x00 || avail == 0x02 || global_avail == 0x02 {
        let katakana = match Canonicalization::from_field(((flags & 0xc00000) >> 22) as u8) {
            Some(c) => c,
            None => {
                return None;
            },
        };
        let lower = match Canonicalization::from_field(((flags & 0x300000) >> 20) as u8) {
            Some(c) => c,
            None => {
                return None;
            },
        };
        let long_vowel = match Canonicalization::from_field(((flags & 0x030000) >> 16) as u8) {
            Some(c) => c,
            None => {
                return None;
            },
        };
        let double_consonant = match Canonicalization::from_field(((flags & 0x00c000) >> 14) as u8) {
            Some(c) => c,
            None => {
                return None;
            },
        };
        let contracted_sound = match Canonicalization::from_field(((flags & 0x003000) >> 12) as u8) {
            Some(c) => c,
            None => {
                return None;
            },
        };
        let small_vowel = match Canonicalization::from_field(((flags & 0x000c00) >> 10) as u8) {
            Some(c) => c,
            None => {
                return None;
            },
        };
        let voiced_consonant = match Canonicalization::from_field(((flags & 0x000300) >> 8) as u8) {
            Some(c) => c,
            None => {
                return None;
            },
        };
        let p_sound = match Canonicalization::from_field(((flags & 0x0000c0) >> 6) as u8) {
            Some(c) => c,
            None => {
                return None;
            },
        };
        let mark = if (flags & 0x0c0000) >> 18 == 0 {
            Canonicalization::Delete
        } else {
            Canonicalization::AsIs
        };
        Some(
            CanonicalizationRules {
                katakana,
                lower,
                mark,
                long_vowel,
                double_consonant,
                contracted_sound,
                small_vowel,
                voiced_consonant,
                p_sound,
                space,
            },
        )
    } else if index_id == 0x70 || index_id == 0x90 {
        Some(
            CanonicalizationRules {
                katakana: Canonicalization::Convert,
                lower: Canonicalization::Convert,
                mark: Canonicalization::Delete,
                long_vowel: Canonicalization::Convert,
                double_consonant: Canonicalization::Convert,
                contracted_sound: Canonicalization::Convert,
                small_vowel: Canonicalization::Convert,
                voiced_consonant: Canonicalization::Convert,
                p_sound: Canonicalization::Convert,
                space,
            },
        )
    } else {
        Some(
            CanonicalizationRules {
                katakana: Canonicalization::AsIs,
                lower: Canonicalization::Convert,
                mark: Canonicalization::AsIs,
                long_vowel: Canonicalization::AsIs,
                double_consonant: Canonicalization::AsIs,
                contracted_sound: Canonicalization::AsIs,
                small_vowel: Canonicalization::AsIs,
                voiced_consonant: Canonicalization::AsIs,
                p_sound: Canonicalization::AsIs,
                space,
            },
        )
    }
}

/// What the 16-byte descriptor entry `i` of the header holds, given the
/// normalized global availability: the index kind, the root page (made
/// 0-based when the stored page is at least 1) and the derived rules.
pub open spec fn spec_parse_index_entry(s: Seq<u8>, global_avail: u8, i: int) -> Option<
    (u8, IndexData),
>
    recommends
        0 <= i,
        16 + 16 * i + 14 <= s.len(),
{
    let off = 16 + 16 * i;
    let index_id = s[off];
    let start_page = spec_be32(s, off + 2);
    let page_count = spec_be32(s, off + 6);
    let avail = s[off + 10];
    let flags = (s[off + 11] * 0x10000 + s[off + 12] * 0x100 + s[off + 13]) as u32;
    match spec_rules_for(index_id, global_avail, avail, flags) {
        Some(rules) => Some(
            (
                index_id,
                IndexData {
                    page: if start_page >= 1 {
                        (start_page - 1) as u32
                    } else {
                        start_page
                    },
                    length: page_count,
                    canonicalization: rules,
                },
            ),
        ),
        None => None,
    }
}

/// Stores a parsed descriptor under its kind; unrecognized kinds are
/// dropped.
pub open spec fn spec_store_index(ics: Indices, id: u8, d: IndexData) -> Indices {
    if id == 0x01 {
        Indices { menu: Some(d), copyright: ics.copyright, word_asis: ics.word_asis }
    } else if id == 0x02 {
        Indices { menu: ics.menu, copyright: Some(d), word_asis: ics.word_asis }
    } else if id == 0x91 {
        Indices { menu: ics.menu, copyright: ics.copyright, word_asis: Some(d) }
    } else {
        ics
    }
}

/// The indices recognized among the first `k` descriptor entries.
pub open spec fn spec_indices_upto(s: Seq<u8>, global_avail: u8, k: int) -> Option<Indices>
    decreases k,
{
    if k <= 0 {
        Some(Indices { menu: None, copyright: None, word_asis: None })
    } else {
        match spec_indices_upto(s, global_avail, k - 1) {
            Some(ics) => match spec_parse_index_entry(s, global_avail, k - 1) {
                Some((id, d)) => Some(spec_store_index(ics, id, d)),
                None => None,
            },
            None => None,
        }
    }
}

/// What the first page of a subbook holds: the descriptor count at byte 1,
/// the global availability at byte 4 (values above 2 read as 0), then one
/// 16-byte descriptor per index from byte 16 on.  `None` when the header is
/// truncated or a descriptor is malformed.
pub open spec fn spec_read_indices(s: Seq<u8>) -> Option<Indices> {
    if s.len() < 6 {
        None
    } else {
        let n = s[1] as int;
        let ga0 = s[4];
        let ga = if ga0 > 0x02 {
            0u8
        } else {
            ga0
        };
        if n > 0 && s.len() < 16 * n + 14 {
            None
        } else {
            spec_indices_upto(s, ga, n)
        }
    }
}

/// Law: a descriptor whose stored root page is at least 1 carries it
/// 0-based in memory, and the descent addresses that page at byte offset
/// `page * 2048`.
pub proof fn lemma_index_page_normalized(s: Seq<u8>, global_avail: u8, i: int)
    ensures
        (spec_parse_index_entry(s, global_avail, i) matches Some((id, d)) ==> {
            let stored = spec_be32(s, 16 + 16 * i + 2);
            &&& stored >= 1 ==> d.page == stored - 1
            &&& stored == 0 ==> d.page == stored
        }),
{
}

/// If descriptor entry `i` is malformed, the whole table is.
proof fn lemma_indices_upto_failure(s: Seq<u8>, global_avail: u8, k: int, i: int)
    requires
        0 <= i < k,
        spec_indices_upto(s, global_avail, i) is Some,
        spec_parse_index_entry(s, global_avail, i) is None,
    ensures
        spec_indices_upto(s, global_avail, k) is None,
    decreases k,
{
    if i < k - 1 {
        lemma_indices_upto_failure(s, global_avail, k - 1, i);
    }
}

impl Indices {
    /// Parses the index descriptor table of the subbook header.
    fn read_from(data: &[u8]) -> (r: Result<Indices, Error>)
        ensures
            (match r {
                Ok(ics) => spec_read_indices(data@) == Some(ics),
                Err(e) => e == Error::InvalidFormat && spec_read_indices(data@) is None,
            }),
    {
        let n = data.len();
        if n < 6 {
            return Err(Error::InvalidFormat);
        }
        let n_indices = data[1] as usize;
        let ga0 = data[4];
        let global_avail = if ga0 > 0x02 {
            0u8
        } else {
            ga0
        };
        if n_indices > 0 && n < 16 * n_indices + 14 {
            return Err(Error::InvalidFormat);
        }
        let mut ics = Indices { menu: None, copyright: None, word_asis: None };
        let mut i: usize = 0;
        while i < n_indices
            invariant
                i <= n_indices,
                n == data@.len(),
                n_indices == data@[1] as int,
                n_indices > 0 ==> n >= 16 * n_indices + 14,
                global_avail == (if data@[4] > 0x02 {
                    0u8
                } else {
                    data@[4]
                }),
                spec_indices_upto(data@, global_avail, i as int) == Some(ics),
            decreases n_indices - i,
        {
            let off = 16 + 16 * i;
            let index_id = data[off];
            let start_page = be32_at(data, off + 2);
            let page_count = be32_at(data, off + 6);
            let avail = data[off + 10];
            let flags = (data[off + 11] as u32) * 0x10000 + (data[off + 12] as u32) * 0x100 + (
            data[off + 13] as u32);
            let rules = match rules_for(index_id, global_avail, avail, flags) {
                Some(rs) => rs,
                None => {
                    proof {
                        lemma_indices_upto_failure(
                            data@,
                            global_avail,
                            n_indices as int,
                            i as int,
                        );
                    }
                    return Err(Error::InvalidFormat);
                },
            };
            let d = IndexData {
                page: if start_page >= 1 {
                    start_page - 1
                } else {
                    start_page
                },
                length: page_count,
                canonicalization: rules,
            };
            if index_id == 0x01 {
                ics.menu = Some(d);
            } else if index_id == 0x02 {
                ics.copyright = Some(d);
            } else if index_id == 0x91 {
                ics.word_asis = Some(d);
            }
            i += 1;
        }
        Ok(ics)
    }
}

// ---------------------------------------------------------------------------
// Descent over the on-disk search tree.
// ---------------------------------------------------------------------------

/// The byte offset of an entry of an internal node: entries are laid out
/// back to back, each `entry_len` name bytes and a 4-byte child page.
pub open spec fn spec_entry_pos(pos: int, entry_len: int, j: int) -> int {
    pos + j * (entry_len + 4)
}

/// The name of entry `j` of an internal node.
pub open spec fn spec_entry_name(s: Seq<u8>, pos: int, entry_len: int, j: int) -> Seq<u8> {
    let p = spec_entry_pos(pos, entry_len, j);
    spec_jis_pairs(s.subrange(p, p + entry_len))
}

/// The 0-based child page of entry `j` of an internal node.
pub open spec fn spec_entry_child(s: Seq<u8>, pos: int, entry_len: int, j: int) -> int {
    spec_be32(s, spec_entry_pos(pos, entry_len, j) + entry_len) - 1
}

/// Scans the `count` entries of an internal node in on-disk order and
/// picks the child of the first whose name is at or after `word`.  The
/// outer `None` is a malformed node: a truncated entry, an odd name
/// length, or a child page of 0, which cannot be made 0-based.
pub open spec fn spec_scan_internal(
    s: Seq<u8>,
    pos: int,
    count: int,
    entry_len: int,
    word: Seq<u8>,
) -> Option<Option<int>>
    decreases count,
{
    if count <= 0 {
        Some(None)
    } else if entry_len % 2 != 0 {
        None
    } else if pos < 0 || pos + entry_len + 4 > s.len() {
        None
    } else if spec_be32(s, pos + entry_len) == 0 {
        None
    } else {
        let name = spec_jis_pairs(s.subrange(pos, pos + entry_len));
        if spec_seq_le(word, name) {
            Some(Some(spec_be32(s, pos + entry_len) - 1))
        } else {
            spec_scan_internal(s, pos + entry_len + 4, count - 1, entry_len, word)
        }
    }
}

/// Scans the `count` entries of a variable-length leaf, collecting the
/// location of every entry whose name equals `word`, in on-disk order.
pub open spec fn spec_leaf_variable(
    s: Seq<u8>,
    pos: int,
    count: int,
    word: Seq<u8>,
    acc: Seq<Location>,
) -> Option<Seq<Location>>
    decreases count,
{
    if count <= 0 {
        Some(acc)
    } else if pos < 0 || pos + 1 > s.len() {
        None
    } else {
        let name_len = s[pos] as int;
        if name_len % 2 != 0 {
            None
        } else if pos + 1 + name_len + 12 > s.len() {
            None
        } else {
            let name = spec_jis_pairs(s.subrange(pos + 1, pos + 1 + name_len));
            let text_page = spec_be32(s, pos + 1 + name_len);
            let text_offset = spec_be16(s, pos + 1 + name_len + 4);
            if text_page == 0 {
                None
            } else {
                let acc2 = if name == word {
                    acc.push(Location { page: (text_page - 1) as u32, offset: text_offset })
                } else {
                    acc
                };
                spec_leaf_variable(s, pos + 1 + name_len + 12, count - 1, word, acc2)
            }
        }
    }
}

/// Scans the `count` records of a grouped leaf: a `0x80` record opens a
/// group and sets whether its name equals `word`; a `0xC0` record adds its
/// location when the open group matched.  A `0x00` single-entry record and
/// any other tag are malformed here.
pub open spec fn spec_leaf_grouped(
    s: Seq<u8>,
    pos: int,
    count: int,
    word: Seq<u8>,
    matched: bool,
    acc: Seq<Location>,
) -> Option<Seq<Location>>
    decreases count,
{
    if count <= 0 {
        Some(acc)
    } else if pos < 0 || pos + 1 > s.len() {
        None
    } else {
        let group_id = s[pos];
        if group_id == 0x80 {
            if pos + 2 > s.len() {
                None
            } else {
                let name_len = s[pos + 1] as int;
                if name_len % 2 != 0 {
                    None
                } else if pos + 6 + name_len > s.len() {
                    None
                } else {
                    let name = spec_jis_pairs(s.subrange(pos + 6, pos + 6 + name_len));
                    spec_leaf_grouped(s, pos + 6 + name_len, count - 1, word, name == word, acc)
                }
            }
        } else if group_id == 0xc0 {
            if pos + 7 > s.len() {
                None
            } else {
                let text_page = spec_be32(s, pos + 1);
                let text_offset = spec_be16(s, pos + 5);
                if text_page == 0 {
                    None
                } else {
                    let acc2 = if matched {
                        acc.push(Location { page: (text_page - 1) as u32, offset: text_offset })
                    } else {
                        acc
                    };
                    spec_leaf_grouped(s, pos + 7, count - 1, word, matched, acc2)
                }
            }
        } else {
            None
        }
    }
}

/// The fuel of a descent: one level per page the file holds, plus one.  A
/// well-formed tree cannot be deeper without revisiting a page.
pub open spec fn spec_search_fuel(s: Seq<u8>) -> nat {
    s.len() / 2048 + 1
}

/// Descends the search tree from `page`: an internal node forwards to the
/// child picked by `spec_scan_internal`, or ends with no result when no
/// entry is at or after `word`; a leaf yields the matching locations.  The
/// page header is a tag byte, an entry length and an entry count; a leaf
/// with neither groups nor variable-length entries is not supported, and a
/// descent deeper than the page count of the file is malformed.
pub open spec fn spec_descend(s: Seq<u8>, page: int, word: Seq<u8>, fuel: nat) -> Option<
    Seq<Location>,
>
    decreases fuel,
{
    if fuel == 0 {
        None
    } else {
        let p = page * 2048;
        if p < 0 || p + 4 > s.len() {
            None
        } else {
            let page_id = s[p];
            let entry_len = s[p + 1] as int;
            let count = spec_be16(s, p + 2) as int;
            if page_id & 0x80 != 0 {
                if page_id & 0x10 != 0 {
                    spec_leaf_grouped(s, p + 4, count, word, false, Seq::empty())
                } else if entry_len == 0 {
                    spec_leaf_variable(s, p + 4, count, word, Seq::empty())
                } else {
                    None
                }
            } else {
                match spec_scan_internal(s, p + 4, count, entry_len, word) {
                    Some(Some(child)) => spec_descend(s, child, word, (fuel - 1) as nat),
                    Some(None) => Some(Seq::empty()),
                    None => None,
                }
            }
        }
    }
}

/// Scans an internal node for the first entry at or after `word`.
fn scan_internal(data: &[u8], pos0: usize, count: u16, entry_len: u8, word: &Vec<u8>) -> (r:
    Result<Option<u32>, Error>)
    ensures
        (match r {
            Ok(o) => spec_scan_internal(
                data@,
                pos0 as int,
                count as int,
                entry_len as int,
                word@,
            ) == (match o {
                Some(child) => Some(Some(child as int)),
                None => Some(None::<int>),
            }),
            Err(e) => e == Error::InvalidFormat && spec_scan_internal(
                data@,
                pos0 as int,
                count as int,
                entry_len as int,
                word@,
            ) is None,
        }),
{
    let n = data.len();
    let el = entry_len as usize;
    if el % 2 != 0 {
        return if count == 0 {
            Ok(None)
        } else {
            Err(Error::InvalidFormat)
        };
    }
    let mut pos = pos0;
    let mut rem = count;
    while rem > 0
        invariant
            n == data@.len(),
            el == entry_len as int,
            el % 2 == 0,
            spec_scan_internal(data@, pos0 as int, count as int, el as int, word@)
                == spec_scan_internal(data@, pos as int, rem as int, el as int, word@),
        decreases rem,
    {
        if pos > n || n - pos < el + 4 {
            return Err(Error::InvalidFormat);
        }
        let child_raw = be32_at(data, pos + el);
        if child_raw == 0 {
            return Err(Error::InvalidFormat);
        }
        let name = match data.read_jis_string(pos, el) {
            Some(v) => v,
            None => {
                return Err(Error::InvalidFormat);
            },
        };
        if bytes_le(word, &name) {
            return Ok(Some(child_raw - 1));
        }
        pos = pos + el + 4;
        rem = rem - 1;
    }
    Ok(None)
}

/// Scans a variable-length leaf for entries named `word`.
fn scan_leaf_variable(data: &[u8], pos0: usize, count: u16, word: &Vec<u8>) -> (r: Result<
    Vec<Location>,
    Error,
>)
    ensures
        (match r {
            Ok(locs) => spec_leaf_variable(data@, pos0 as int, count as int, word@, Seq::empty())
                == Some(locs@),
            Err(e) => e == Error::InvalidFormat && spec_leaf_variable(
                data@,
                pos0 as int,
                count as int,
                word@,
                Seq::empty(),
            ) is None,
        }),
{
    let n = data.len();
    let mut results: Vec<Location> = Vec::new();
    let mut pos = pos0;
    let mut rem = count;
    proof {
        assert(results@ =~= Seq::<Location>::empty());
    }
    while rem > 0
        invariant
            n == data@.len(),
            spec_leaf_variable(data@, pos0 as int, count as int, word@, Seq::empty())
                == spec_leaf_variable(data@, pos as int, rem as int, word@, results@),
        decreases rem,
    {
        if pos >= n {
            return Err(Error::InvalidFormat);
        }
        let name_len = data[pos] as usize;
        if name_len % 2 != 0 {
            return Err(Error::InvalidFormat);
        }
        if n - pos < 1 + name_len + 12 {
            return Err(Error::InvalidFormat);
        }
        let name = match data.read_jis_string(pos + 1, name_len) {
            Some(v) => v,
            None => {
                return Err(Error::InvalidFormat);
            },
        };
        let text_page = be32_at(data, pos + 1 + name_len);
        let text_offset = be16_at(data, pos + 1 + name_len + 4);
        if text_page == 0 {
            return Err(Error::InvalidFormat);
        }
        if bytes_eq(&name, word) {
            results.push(Location { page: text_page - 1, offset: text_offset });
        }
        pos = pos + 1 + name_len + 12;
        rem = rem - 1;
    }
    Ok(results)
}

/// Scans a grouped leaf for locations of the group named `word`.
fn scan_leaf_grouped(data: &[u8], pos0: usize, count: u16, word: &Vec<u8>) -> (r: Result<
    Vec<Location>,
    Error,
>)
    ensures
        (match r {
            Ok(locs) => spec_leaf_grouped(
                data@,
                pos0 as int,
                count as int,
                word@,
                false,
                Seq::empty(),
            ) == Some(locs@),
            Err(e) => e == Error::InvalidFormat && spec_leaf_grouped(
                data@,
                pos0 as int,
                count as int,
                word@,
                false,
                Seq::empty(),
            ) is None,
        }),
{
    let n = data.len();
    let mut results: Vec<Location> = Vec::new();
    let mut matched = false;
    let mut pos = pos0;
    let mut rem = count;
    proof {
        assert(results@ =~= Seq::<Location>::empty());
    }
    while rem > 0
        invariant
            n == data@.len(),
            spec_leaf_grouped(data@, pos0 as int, count as int, word@, false, Seq::empty())
                == spec_leaf_grouped(data@, pos as int, rem as int, word@, matched, results@),
        decreases rem,
    {
        if pos >= n {
            return Err(Error::InvalidFormat);
        }
        let group_id = data[pos];
        if group_id == 0x80 {
            if n - pos < 2 {
                return Err(Error::InvalidFormat);
            }
            let name_len = data[pos + 1] as usize;
            if name_len % 2 != 0 {
                return Err(Error::InvalidFormat);
            }
            if n - pos < 6 + name_len {
                return Err(Error::InvalidFormat);
            }
            let name = match data.read_jis_string(pos + 6, name_len) {
                Some(v) => v,
                None => {
                    return Err(Error::InvalidFormat);
                },
            };
            matched = bytes_eq(&name, word);
            pos = pos + 6 + name_len;
            rem = rem - 1;
        } else if group_id == 0xc0 {
            if n - pos < 7 {
                return Err(Error::InvalidFormat);
            }
            let text_page = be32_at(data, pos + 1);
            let text_offset = be16_at(data, pos + 5);
            if text_page == 0 {
                return Err(Error::InvalidFormat);
            }
            if matched {
                results.push(Location { page: text_page - 1, offset: text_offset });
            }
            pos = pos + 7;
            rem = rem - 1;
        } else {
            return Err(Error::InvalidFormat);
        }
    }
    Ok(results)
}

/// Descends the search tree of `data` from `start_page` for `word`.
fn search_descend(data: &[u8], start_page: u32, word: &Vec<u8>) -> (r: Result<Vec<Location>, Error>)
    ensures
        (match r {
            Ok(locs) => spec_descend(data@, start_page as int, word@, spec_search_fuel(data@))
                == Some(locs@),
            Err(e) => e == Error::InvalidFormat && spec_descend(
                data@,
                start_page as int,
                word@,
                spec_search_fuel(data@),
            ) is None,
        }),
{
    let n = data.len();
    let mut page = start_page;
    let mut fuel: usize = n / 2048 + 1;
    loop
        invariant
            n == data@.len(),
            spec_descend(data@, start_page as int, word@, spec_search_fuel(data@)) == spec_descend(
                data@,
                page as int,
                word@,
                fuel as nat,
            ),
        decreases fuel,
    {
        if fuel == 0 {
            return Err(Error::InvalidFormat);
        }
        fuel = fuel - 1;
        let p64 = (page as u64) * 2048;
        if p64 + 4 > n as u64 {
            return Err(Error::InvalidFormat);
        }
        let p = p64 as usize;
        let page_id = data[p];
        let entry_len = data[p + 1];
        let count = be16_at(data, p + 2);
        if page_id & 0x80 != 0 {
            if page_id & 0x10 != 0 {
                return scan_leaf_grouped(data, p + 4, count, word);
            } else if entry_len == 0 {
                return scan_leaf_variable(data, p + 4, count, word);
            } else {
                return Err(Error::InvalidFormat);
            }
        } else {
            match scan_internal(data, p + 4, count, entry_len, word) {
                Ok(Some(child)) => {
                    page = child;
                },
                Ok(None) => {
                    return Ok(Vec::new());
                },
                Err(e) => {
                    return Err(e);
                },
            }
        }
    }
}

// ---------------------------------------------------------------------------
// The subbook facade.
// ---------------------------------------------------------------------------

/// The byte offset a location addresses: its page times the page size,
/// plus its offset within the page.
pub open spec fn spec_location_offset(loc: Location) -> int {
    loc.page * 2048 + loc.offset
}

/// What a search yields on a subbook's data: nothing if the requested
/// index kind is absent; else the word is canonicalized under the index's
/// rules, re-encoded to JIS bytes, and the tree under the index's root
/// page is descended.
pub open spec fn spec_search(data: Seq<u8>, index: Index, word: Seq<char>) -> Result<
    Seq<Location>,
    Error,
> {
    match spec_read_indices(data) {
        Some(ics) => match index {
            Index::WordAsIs => match ics.word_asis {
                Some(d) => {
                    let jis = spec_to_jis(spec_canonicalize(word, d.canonicalization));
                    match spec_descend(data, d.page as int, jis, spec_search_fuel(data)) {
                        Some(locs) => Ok(locs),
                        None => Err(Error::InvalidFormat),
                    }
                },
                None => Err(Error::IndexNotAvailable),
            },
        },
        None => Err(Error::InvalidFormat),
    }
}

/// A subbook: the bytes of its data file, with the index table of the
/// first page parsed.
#[derive(Debug)]
pub struct Subbook {
    data: Vec<u8>,
    indices: Indices,
}

impl View for Subbook {
    type V = Seq<u8>;

    closed spec fn view(&self) -> Seq<u8> {
        self.data@
    }
}

impl Subbook {
    /// The stored indices are exactly those parsed from the data.
    #[verifier::type_invariant]
    spec fn wf(self) -> bool {
        spec_read_indices(self.data@) == Some(self.indices)
    }

    /// Builds a subbook from the bytes of its data file, parsing the
    /// index descriptor table of the first page.
    pub fn from_io(data: Vec<u8>) -> (r: Result<Subbook, Error>)
        ensures
            (match r {
                Ok(sb) => sb@ == data@ && spec_read_indices(data@) is Some,
                Err(e) => e == Error::InvalidFormat && spec_read_indices(data@) is None,
            }),
    {
        let indices = match Indices::read_from(data.as_slice()) {
            Ok(ics) => ics,
            Err(e) => {
                return Err(e);
            },
        };
        Ok(Subbook { data, indices })
    }

    /// Decodes the text stream starting at `location`.
    pub fn read_text(&self, location: Location) -> (r: Result<Text, Error>)
        ensures
            (match r {
                Ok(t) => {
                    &&& spec_decode_text(
                        self@,
                        spec_location_offset(location),
                        false,
                        None,
                        Seq::empty(),
                    ) matches TextDecode::Done { elems, .. } && t.deep_view() == elems
                    &&& spec_no_adjacent_strings(t.deep_view())
                },
                Err(e) => e == Error::InvalidFormat && spec_decode_text(
                    self@,
                    spec_location_offset(location),
                    false,
                    None,
                    Seq::empty(),
                ) is Fail,
            }),
    {
        let n = self.data.len();
        let off64 = (location.page as u64) * 2048 + (location.offset as u64);
        if off64 > n as u64 {
            return Err(Error::InvalidFormat);
        }
        read_text_from(self.data.as_slice(), off64 as usize)
    }

    /// Searches the given index for a word.  The word is canonicalized
    /// under the index's own rules and re-encoded to JIS bytes before the
    /// descent compares it against entry names.
    pub fn search(&self, index: Index, word: &str) -> (r: Result<Vec<Location>, Error>)
        ensures
            (match r {
                Ok(locs) => spec_search(self@, index, word@) == Ok::<_, Error>(locs@),
                Err(e) => spec_search(self@, index, word@) == Err::<Seq<Location>, _>(e),
            }),
    {
        proof {
            use_type_invariant(&*self);
        }
        let idata = match index {
            Index::WordAsIs => match self.indices.word_asis {
                Some(d) => d,
                None => {
                    return Err(Error::IndexNotAvailable);
                },
            },
        };
        let canonical = word.canonicalize(&idata.canonicalization);
        let jis = canonical.as_str().to_jis_string();
        search_descend(self.data.as_slice(), idata.page, &jis)
    }
}

// ---------------------------------------------------------------------------
// Order of the internal-node scan.
// ---------------------------------------------------------------------------

/// Law: an internal node is visited in on-disk order.  A successful scan
/// either picks the child of the first entry whose name is at or after the
/// word, every earlier entry's name lying strictly before it, or reports
/// that no entry qualifies.
pub proof fn lemma_scan_internal_monotonic(
    s: Seq<u8>,
    pos: int,
    count: int,
    entry_len: int,
    word: Seq<u8>,
)
    ensures
        (spec_scan_internal(s, pos, count, entry_len, word) matches Some(o) ==> (match o {
            Some(child) => exists|j: int|
                #![trigger spec_entry_name(s, pos, entry_len, j)]
                0 <= j < count && child == spec_entry_child(s, pos, entry_len, j) && spec_seq_le(
                    word,
                    spec_entry_name(s, pos, entry_len, j),
                ) && (forall|j2: int|
                    0 <= j2 < j ==> !spec_seq_le(
                        word,
                        #[trigger] spec_entry_name(s, pos, entry_len, j2),
                    )),
            None => forall|j: int|
                0 <= j < count ==> !spec_seq_le(
                    word,
                    #[trigger] spec_entry_name(s, pos, entry_len, j),
                ),
        })),
    decreases count,
{
    if count <= 0 {
    } else if entry_len % 2 != 0 || pos < 0 || pos + entry_len + 4 > s.len() || spec_be32(
        s,
        pos + entry_len,
    ) == 0 {
    } else {
        assert(spec_entry_pos(pos, entry_len, 0) == pos) by (nonlinear_arith);
        let name0 = spec_entry_name(s, pos, entry_len, 0);
        assert(name0 == spec_jis_pairs(s.subrange(pos, pos + entry_len)));
        if spec_seq_le(word, name0) {
            assert(spec_entry_child(s, pos, entry_len, 0) == spec_be32(s, pos + entry_len) - 1);
        } else {
            let pos2 = pos + entry_len + 4;
            lemma_scan_internal_monotonic(s, pos2, count - 1, entry_len, word);
            assert forall|j: int| #![trigger spec_entry_pos(pos2, entry_len, j)] 0 <= j < count
                - 1 implies spec_entry_pos(pos2, entry_len, j) == spec_entry_pos(
                pos,
                entry_len,
                j + 1,
            ) by {
                assert((j + 1) * (entry_len + 4) == j * (entry_len + 4) + (entry_len + 4))
                    by (nonlinear_arith);
            }
            match spec_scan_internal(s, pos2, count - 1, entry_len, word) {
                Some(Some(child)) => {
                    let j3 = choose|j3: int|
                        #![trigger spec_entry_name(s, pos2, entry_len, j3)]
                        0 <= j3 < count - 1 && child == spec_entry_child(s, pos2, entry_len, j3)
                            && spec_seq_le(word, spec_entry_name(s, pos2, entry_len, j3)) && (
                        forall|j2: int|
                            0 <= j2 < j3 ==> !spec_seq_le(
                                word,
                                #[trigger] spec_entry_name(s, pos2, entry_len, j2),
                            ));
                    assert(spec_entry_pos(pos2, entry_len, j3) == spec_entry_pos(
                        pos,
                        entry_len,
                        j3 + 1,
                    ));
                    assert(spec_entry_name(s, pos, entry_len, j3 + 1) == spec_entry_name(
                        s,
                        pos2,
                        entry_len,
                        j3,
                    ));
                    assert(spec_entry_child(s, pos, entry_len, j3 + 1) == spec_entry_child(
                        s,
                        pos2,
                        entry_len,
                        j3,
                    ));
                    assert forall|j2: int| 0 <= j2 < j3 + 1 implies !spec_seq_le(
                        word,
                        #[trigger] spec_entry_name(s, pos, entry_len, j2),
                    ) by {
                        if j2 == 0 {
                        } else {
                            assert(spec_entry_pos(pos2, entry_len, j2 - 1) == spec_entry_pos(
                                pos,
                                entry_len,
                                j2,
                            ));
                            assert(spec_entry_name(s, pos, entry_len, j2) == spec_entry_name(
                                s,
                                pos2,
                                entry_len,
                                j2 - 1,
                            ));
                        }
                    }
                    assert(0 <= j3 + 1 < count && child == spec_entry_child(
                        s,
                        pos,
                        entry_len,
                        j3 + 1,
                    ) && spec_seq_le(word, spec_entry_name(s, pos, entry_len, j3 + 1)) && (forall|
                        j2: int,
                    |
                        0 <= j2 < j3 + 1 ==> !spec_seq_le(
                            word,
                            #[trigger] spec_entry_name(s, pos, entry_len, j2),
                        )));
                },
                Some(None) => {
                    assert forall|j: int| 0 <= j < count implies !spec_seq_le(
                        word,
                        #[trigger] spec_entry_name(s, pos, entry_len, j),
                    ) by {
                        if j == 0 {
                        } else {
                            assert(spec_entry_pos(pos2, entry_len, j - 1) == spec_entry_pos(
                                pos,
                                entry_len,
                                j,
                            ));
                            assert(spec_entry_name(s, pos, entry_len, j) == spec_entry_name(
                                s,
                                pos2,
                                entry_len,
                                j - 1,
                            ));
                        }
                    }
                },
                None => {
                },
            }
        }
    }
}

} // verus!
