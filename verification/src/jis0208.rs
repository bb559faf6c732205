//! Codec between JIS X 0208 code points and Unicode characters.
//!
//! A JIS X 0208 code point is a 16-bit value whose two bytes each lie in
//! `0x21..=0x7E`.  The code-point table itself lives in the `encoding_rs`
//! crate: offsetting both bytes by `0x80` turns a code point into its EUC-JP
//! encoding, so one EUC-JP decode (or encode) of a two-byte buffer performs
//! the table lookup.  The table's content is not restated here; it is given
//! a name and everything downstream is phrased over that name.

use vstd::prelude::*;

use crate::util::spec_be16;

verus! {

/// What `encoding_rs::EUC_JP` decoding returns for a byte sequence:
/// the decoded characters, or `None` if the bytes are malformed EUC-JP.
pub uninterp spec fn euc_decode_chars(bytes: Seq<u8>) -> Option<Seq<char>>;

/// What `encoding_rs::EUC_JP` encoding returns for one character: its
/// EUC-JP bytes, or `None` if the character is unmappable.
pub uninterp spec fn euc_encode_bytes(c: char) -> Option<Seq<u8>>;

/// Relies on `encoding_rs::EUC_JP.decode_without_bom_handling_and_without_replacement`:
/// decodes the whole buffer, or reports malformed input; the result depends
/// on the bytes alone.
#[verifier::external_body]
fn euc_decode(bytes: &[u8]) -> (r: Option<Vec<char>>)
    ensures
        (match r {
            Some(v) => euc_decode_chars(bytes@) == Some(v@),
            None => euc_decode_chars(bytes@) is None,
        }),
{
    encoding_rs::EUC_JP
        .decode_without_bom_handling_and_without_replacement(bytes)
        .map(|s| s.chars().collect())
}

/// Relies on `encoding_rs::EUC_JP.encode`: encodes the character, with the
/// returned flag reporting an unmappable one; the result depends on the
/// character alone.
#[verifier::external_body]
fn euc_encode_char(c: char) -> (r: Option<Vec<u8>>)
    ensures
        (match r {
            Some(v) => euc_encode_bytes(c) == Some(v@),
            None => euc_encode_bytes(c) is None,
        }),
{
    let mut buf = [0u8; 4];
    let s: &str = c.encode_utf8(&mut buf);
    let (bytes, _, had_errors) = encoding_rs::EUC_JP.encode(s);
    if had_errors {
        None
    } else {
        Some(bytes.into_owned())
    }
}

/// The character a JIS X 0208 code point decodes to, if any.  Both bytes of
/// the code point must lie in `0x21..=0x7E`; the EUC-JP form (each byte
/// offset by `0x80`) must decode to exactly one character.
pub open spec fn spec_jis_decode(cp: u16) -> Option<char> {
    let hi = cp / 0x100;
    let lo = cp % 0x100;
    if 0x21 <= hi <= 0x7e && 0x21 <= lo <= 0x7e {
        match euc_decode_chars(seq![(hi + 0x80) as u8, (lo + 0x80) as u8]) {
            Some(s) => if s.len() == 1 {
                Some(s[0])
            } else {
                None
            },
            None => None,
        }
    } else {
        None
    }
}

/// The JIS X 0208 code point a character encodes to, if any: the character's
/// EUC-JP form must be one two-byte pair, each byte offset by `0x80` from a
/// value in `0x21..=0x7E`.
pub open spec fn spec_jis_encode(c: char) -> Option<u16> {
    match euc_encode_bytes(c) {
        Some(b) => if b.len() == 2 && 0xa1 <= b[0] <= 0xfe && 0xa1 <= b[1] <= 0xfe {
            Some(((b[0] - 0x80) * 0x100 + (b[1] - 0x80)) as u16)
        } else {
            None
        },
        None => None,
    }
}

/// Decodes one JIS X 0208 code point to a character.
pub fn decode_codepoint(codepoint: u16) -> (r: Option<char>)
    ensures
        r == spec_jis_decode(codepoint),
{
    let hi = codepoint / 0x100;
    let lo = codepoint % 0x100;
    if 0x21 <= hi && hi <= 0x7e && 0x21 <= lo && lo <= 0x7e {
        let mut bytes: Vec<u8> = Vec::new();
        bytes.push((hi + 0x80) as u8);
        bytes.push((lo + 0x80) as u8);
        proof {
            assert(bytes@ =~= seq![(hi + 0x80) as u8, (lo + 0x80) as u8]);
        }
        match euc_decode(bytes.as_slice()) {
            Some(v) => if v.len() == 1 {
                Some(v[0])
            } else {
                None
            },
            None => None,
        }
    } else {
        None
    }
}

/// Encodes one character to its JIS X 0208 code point.
pub fn encode_codepoint(c: char) -> (r: Option<u16>)
    ensures
        r == spec_jis_encode(c),
{
    match euc_encode_char(c) {
        Some(b) => {
            if b.len() == 2 {
                let b0 = b[0];
                let b1 = b[1];
                if 0xa1 <= b0 && b0 <= 0xfe && 0xa1 <= b1 && b1 <= 0xfe {
                    Some(((b0 - 0x80) as u16) * 0x100 + ((b1 - 0x80) as u16))
                } else {
                    None
                }
            } else {
                None
            }
        },
        None => None,
    }
}

/// What decoding a sequence of code points yields: every code point must
/// decode, else nothing does.
pub open spec fn spec_decode_codepoints(cps: Seq<u16>) -> Option<Seq<char>>
    decreases cps.len(),
{
    if cps.len() == 0 {
        Some(Seq::empty())
    } else {
        match (spec_decode_codepoints(cps.drop_last()), spec_jis_decode(cps.last())) {
            (Some(rest), Some(c)) => Some(rest.push(c)),
            _ => None,
        }
    }
}

/// Decodes a sequence of code points; fails if any one has no mapping.
pub fn decode_codepoints(codepoints: &[u16]) -> (r: Option<String>)
    ensures
        (match r {
            Some(s) => spec_decode_codepoints(codepoints@) == Some(s@),
            None => spec_decode_codepoints(codepoints@) is None,
        }),
{
    let mut chars: Vec<char> = Vec::new();
    let n = codepoints.len();
    let mut i: usize = 0;
    while i < n
        invariant
            0 <= i <= n,
            n == codepoints@.len(),
            spec_decode_codepoints(codepoints@.take(i as int)) == Some(chars@),
        decreases n - i,
    {
        proof {
            assert(codepoints@.take(i + 1).drop_last() =~= codepoints@.take(i as int));
            assert(codepoints@.take(i + 1).last() == codepoints@[i as int]);
        }
        match decode_codepoint(codepoints[i]) {
            Some(c) => chars.push(c),
            None => {
                proof {
                    lemma_decode_codepoints_failure(codepoints@, i as int);
                }
                return None;
            },
        }
        i += 1;
    }
    proof {
        assert(codepoints@.take(n as int) =~= codepoints@);
    }
    Some(crate::util::chars_to_string(&chars))
}

/// If one code point of a sequence does not decode, the sequence does not.
proof fn lemma_decode_codepoints_failure(cps: Seq<u16>, i: int)
    requires
        0 <= i < cps.len(),
        spec_jis_decode(cps[i]) is None,
    ensures
        spec_decode_codepoints(cps) is None,
    decreases cps.len(),
{
    if i == cps.len() - 1 {
    } else {
        lemma_decode_codepoints_failure(cps.drop_last(), i);
    }
}

/// The code points read from a byte sequence of even length, each byte pair
/// big-endian.
pub open spec fn spec_codepoints_of_bytes(s: Seq<u8>) -> Seq<u16>
    decreases s.len(),
{
    if s.len() < 2 {
        Seq::empty()
    } else {
        spec_codepoints_of_bytes(s.take(s.len() - 2)).push(spec_be16(s, s.len() - 2))
    }
}

/// Decodes a byte string of big-endian JIS X 0208 pairs; fails if any pair
/// has no mapping.
pub fn decode_string(string: &[u8]) -> (r: Option<String>)
    requires
        string@.len() % 2 == 0,
    ensures
        (match r {
            Some(s) => spec_decode_codepoints(spec_codepoints_of_bytes(string@)) == Some(s@),
            None => spec_decode_codepoints(spec_codepoints_of_bytes(string@)) is None,
        }),
{
    let n = string.len();
    let mut cps: Vec<u16> = Vec::new();
    let mut i: usize = 0;
    while i < n
        invariant
            i <= n,
            i % 2 == 0,
            n == string@.len(),
            n % 2 == 0,
            cps@ == spec_codepoints_of_bytes(string@.take(i as int)),
        decreases n - i,
    {
        proof {
            assert(i + 2 <= n);
        }
        let cp = crate::util::be16_at(string, i);
        cps.push(cp);
        proof {
            let t = string@.take(i + 2);
            assert(t.take(t.len() - 2) =~= string@.take(i as int));
            assert(spec_be16(t, t.len() - 2) == spec_be16(string@, i as int));
        }
        i += 2;
    }
    proof {
        assert(string@.take(n as int) =~= string@);
    }
    decode_codepoints(cps.as_slice())
}

} // verus!
