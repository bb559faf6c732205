//! Byte-level reading helpers and character-width folding.

use vstd::prelude::*;
use vstd::string::StrSliceExecFns;

use crate::Error;
use crate::jis0208::encode_codepoint;
use crate::jis0208::decode_codepoint;
use crate::jis0208::spec_jis_decode;
use crate::jis0208::spec_jis_encode;

verus! {

// ---------------------------------------------------------------------------
// Big-endian integer reads over a byte buffer.
// ---------------------------------------------------------------------------

/// The big-endian 16-bit integer held at `s[i]`, `s[i + 1]`.
pub open spec fn spec_be16(s: Seq<u8>, i: int) -> u16
    recommends
        0 <= i,
        i + 2 <= s.len(),
{
    (s[i] * 0x100 + s[i + 1]) as u16
}

/// The big-endian 32-bit integer held at `s[i]`, ..., `s[i + 3]`.
pub open spec fn spec_be32(s: Seq<u8>, i: int) -> u32
    recommends
        0 <= i,
        i + 4 <= s.len(),
{
    (s[i] * 0x100_0000 + s[i + 1] * 0x1_0000 + s[i + 2] * 0x100 + s[i + 3]) as u32
}

/// Reads the big-endian 16-bit integer at `pos`.
pub(crate) fn be16_at(data: &[u8], pos: usize) -> (r: u16)
    requires
        pos + 2 <= data@.len(),
    ensures
        r == spec_be16(data@, pos as int),
{
    (data[pos] as u16) * 0x100 + (data[pos + 1] as u16)
}

/// Reads the big-endian 32-bit integer at `pos`.
pub(crate) fn be32_at(data: &[u8], pos: usize) -> (r: u32)
    requires
        pos + 4 <= data@.len(),
    ensures
        r == spec_be32(data@, pos as int),
{
    (data[pos] as u32) * 0x100_0000 + (data[pos + 1] as u32) * 0x1_0000
        + (data[pos + 2] as u32) * 0x100 + (data[pos + 3] as u32)
}

/// Relies on `String: FromIterator<char>`: collecting characters yields the
/// string of exactly those characters.
#[verifier::external_body]
pub(crate) fn chars_to_string(v: &Vec<char>) -> (s: String)
    ensures
        s@ == v@,
{
    v.iter().collect()
}

// ---------------------------------------------------------------------------
// Character width folding.
//
// The tables live in the `unicode_hfwidth` crate; their results are given
// names here and everything downstream is stated over those names.
// ---------------------------------------------------------------------------

/// What `unicode_hfwidth::to_standard_width` returns: the standard-width
/// form of a character of the halfwidth/fullwidth forms block, if any.
pub uninterp spec fn hfw_standard(c: char) -> Option<char>;

/// What `unicode_hfwidth::to_fullwidth` returns: the fullwidth form of a
/// character, if one exists and `c` is not already fullwidth.
pub uninterp spec fn hfw_full(c: char) -> Option<char>;

/// Relies on `unicode_hfwidth::to_standard_width`: a pure table lookup, so
/// the result depends on the character alone.
#[verifier::external_body]
fn hfwidth_standard(c: char) -> (r: Option<char>)
    ensures
        r == hfw_standard(c),
{
    unicode_hfwidth::to_standard_width(c)
}

/// Relies on `unicode_hfwidth::to_fullwidth`: a pure table lookup, so the
/// result depends on the character alone.
#[verifier::external_body]
fn hfwidth_full(c: char) -> (r: Option<char>)
    ensures
        r == hfw_full(c),
{
    unicode_hfwidth::to_fullwidth(c)
}

/// The standard-width fold: U+3000 IDEOGRAPHIC SPACE becomes an ASCII space,
/// anything else goes through the width table, identity on a miss.
pub open spec fn spec_to_standard_width(c: char) -> char {
    if c == '\u{3000}' {
        ' '
    } else {
        match hfw_standard(c) {
            Some(x) => x,
            None => c,
        }
    }
}

/// The fullwidth fold: an ASCII space becomes U+3000 IDEOGRAPHIC SPACE,
/// anything else goes through the width table, identity on a miss.
pub open spec fn spec_to_fullwidth(c: char) -> char {
    if c == ' ' {
        '\u{3000}'
    } else {
        match hfw_full(c) {
            Some(x) => x,
            None => c,
        }
    }
}

/// Width folding on characters.
pub trait CharWidthExt: Sized {
    /// What `to_standard_width` returns.
    spec fn spec_standard_width(self) -> Self;

    /// What `to_fullwidth` returns.
    spec fn spec_fullwidth(self) -> Self;

    /// Folds a narrow (halfwidth) form to its standard-width equivalent.
    fn to_standard_width(self) -> (r: Self)
        ensures
            r == self.spec_standard_width(),
    ;

    /// Folds a character to its fullwidth equivalent.
    fn to_fullwidth(self) -> (r: Self)
        ensures
            r == self.spec_fullwidth(),
    ;
}

impl CharWidthExt for char {
    open spec fn spec_standard_width(self) -> char {
        spec_to_standard_width(self)
    }

    open spec fn spec_fullwidth(self) -> char {
        spec_to_fullwidth(self)
    }

    fn to_standard_width(self) -> (r: char) {
        if self == '\u{3000}' {
            ' '
        } else {
            match hfwidth_standard(self) {
                Some(x) => x,
                None => self,
            }
        }
    }

    fn to_fullwidth(self) -> (r: char) {
        if self == ' ' {
            '\u{3000}'
        } else {
            match hfwidth_full(self) {
                Some(x) => x,
                None => self,
            }
        }
    }
}

// ---------------------------------------------------------------------------
// Conversion between Unicode strings and JIS X 0208 byte strings.
// ---------------------------------------------------------------------------

/// The on-disk bytes of one character: the big-endian bytes of its JIS X
/// 0208 code point, or nothing if the character has none.
pub open spec fn spec_jis_bytes_of(c: char) -> Seq<u8> {
    match spec_jis_encode(c) {
        Some(cp) => seq![(cp / 0x100) as u8, (cp % 0x100) as u8],
        None => Seq::empty(),
    }
}

/// The on-disk byte form of a character sequence: each character's JIS X
/// 0208 pair, big-endian, unencodable characters skipped.
pub open spec fn spec_to_jis(s: Seq<char>) -> Seq<u8>
    decreases s.len(),
{
    if s.len() == 0 {
        Seq::empty()
    } else {
        spec_to_jis(s.drop_last()) + spec_jis_bytes_of(s.last())
    }
}

/// The characters read back from a byte string of big-endian JIS X 0208
/// pairs, pairs with no mapping skipped.
pub open spec fn spec_to_unicode(s: Seq<u8>) -> Seq<char>
    decreases s.len(),
{
    if s.len() < 2 {
        Seq::empty()
    } else {
        spec_to_unicode(s.take(s.len() - 2)) + (match spec_jis_decode(
            spec_be16(s, s.len() - 2),
        ) {
            Some(c) => seq![c],
            None => Seq::empty(),
        })
    }
}

/// Encoding to the on-disk JIS X 0208 byte form.
pub trait ToJisString {
    /// The characters of this value.
    spec fn spec_jis_source(&self) -> Seq<char>;

    /// Re-encodes the characters to big-endian JIS X 0208 byte pairs,
    /// skipping characters that have no code point.
    fn to_jis_string(&self) -> (r: Vec<u8>)
        ensures
            r@ == spec_to_jis(self.spec_jis_source()),
    ;
}

impl ToJisString for str {
    open spec fn spec_jis_source(&self) -> Seq<char> {
        self@
    }

    fn to_jis_string(&self) -> (r: Vec<u8>) {
        let n = self.unicode_len();
        let mut r: Vec<u8> = Vec::new();
        let mut i: usize = 0;
        while i < n
            invariant
                i <= n,
                n == self@.len(),
                r@ == spec_to_jis(self@.take(i as int)),
            decreases n - i,
        {
            let c = self.get_char(i);
            proof {
                assert(self@.take(i + 1).drop_last() =~= self@.take(i as int));
            }
            match encode_codepoint(c) {
                Some(cp) => {
                    r.push((cp / 0x100) as u8);
                    r.push((cp % 0x100) as u8);
                },
                None => {},
            }
            proof {
                assert(r@ =~= spec_to_jis(self@.take(i + 1)));
            }
            i += 1;
        }
        proof {
            assert(self@.take(n as int) =~= self@);
        }
        r
    }
}

/// Decoding from the on-disk JIS X 0208 byte form.
pub trait ToUnicodeString {
    /// The bytes of this value.
    spec fn spec_jis_bytes(&self) -> Seq<u8>;

    /// Decodes big-endian JIS X 0208 byte pairs back to characters,
    /// skipping pairs that have no mapping.
    fn to_unicode_string(&self) -> (r: String)
        requires
            self.spec_jis_bytes().len() % 2 == 0,
        ensures
            r@ == spec_to_unicode(self.spec_jis_bytes()),
    ;
}

impl ToUnicodeString for [u8] {
    open spec fn spec_jis_bytes(&self) -> Seq<u8> {
        self@
    }

    fn to_unicode_string(&self) -> (r: String) {
        let n = self.len();
        let mut chars: Vec<char> = Vec::new();
        let mut i: usize = 0;
        while i < n
            invariant
                i <= n,
                i % 2 == 0,
                n == self@.len(),
                n % 2 == 0,
                chars@ == spec_to_unicode(self@.take(i as int)),
            decreases n - i,
        {
            proof {
                assert(i + 2 <= n);
            }
            let cp = be16_at(self, i);
            match decode_codepoint(cp) {
                Some(c) => chars.push(c),
                None => {},
            }
            proof {
                let t = self@.take(i + 2);
                assert(t.take(t.len() - 2) =~= self@.take(i as int));
                assert(spec_be16(t, t.len() - 2) == spec_be16(self@, i as int));
                assert(chars@ =~= spec_to_unicode(self@.take(i + 2)));
            }
            i += 2;
        }
        proof {
            assert(self@.take(n as int) =~= self@);
        }
        chars_to_string(&chars)
    }
}

// ---------------------------------------------------------------------------
// Embedded name strings of the search tree.
// ---------------------------------------------------------------------------

/// The little-endian 16-bit integer held at `s[i]`, `s[i + 1]`.
pub open spec fn spec_le16(s: Seq<u8>, i: int) -> u16
    recommends
        0 <= i,
        i + 2 <= s.len(),
{
    (s[i + 1] * 0x100 + s[i]) as u16
}

/// Reads the little-endian 16-bit integer at `pos`.
pub(crate) fn le16_at(data: &[u8], pos: usize) -> (r: u16)
    requires
        pos + 2 <= data@.len(),
    ensures
        r == spec_le16(data@, pos as int),
{
    let n = data.len();
    proof {
        assert(pos + 2 <= n);
    }
    (data[pos + 1] as u16) * 0x100 + (data[pos] as u16)
}

/// A name field with its `(0x00, 0x00)` filler pairs dropped.
pub open spec fn spec_jis_pairs(s: Seq<u8>) -> Seq<u8>
    recommends
        s.len() % 2 == 0,
    decreases s.len(),
{
    if s.len() < 2 {
        Seq::empty()
    } else {
        let rest = spec_jis_pairs(s.take(s.len() - 2));
        if s[s.len() - 2] == 0 && s[s.len() - 1] == 0 {
            rest
        } else {
            rest + seq![s[s.len() - 2], s[s.len() - 1]]
        }
    }
}

/// Reading the embedded JIS name fields of the search tree.
pub trait ReaderJisExt {
    /// The bytes of this value.
    spec fn spec_reader_bytes(&self) -> Seq<u8>;

    /// Reads a `len`-byte JIS name field at `pos`, dropping zero pairs;
    /// `None` when the buffer ends first.
    fn read_jis_string(&self, pos: usize, len: usize) -> (r: Option<Vec<u8>>)
        requires
            len % 2 == 0,
        ensures
            (match r {
                Some(v) => pos + len <= self.spec_reader_bytes().len() && v@ == spec_jis_pairs(
                    self.spec_reader_bytes().subrange(pos as int, pos + len),
                ),
                None => pos + len > self.spec_reader_bytes().len(),
            }),
    ;

    /// Reads a `len`-byte field of little-endian code points at `pos`,
    /// truncates it at its `(0x00, 0x00)` terminator and decodes it;
    /// `Ok(None)` when a code point has no mapping, `Err` when the buffer
    /// ends first.
    fn convert_jis_string(&self, pos: usize, len: usize) -> (r: Result<Option<String>, Error>)
        requires
            len % 2 == 0,
        ensures
            (match r {
                Ok(o) => pos + len <= self.spec_reader_bytes().len() && {
                    let cps = spec_le_codepoints(
                        crate::catalog::spec_trim_zero_cp(
                            self.spec_reader_bytes().subrange(pos as int, pos + len),
                        ),
                    );
                    match o {
                        Some(t) => crate::jis0208::spec_decode_codepoints(cps) == Some(t@),
                        None => crate::jis0208::spec_decode_codepoints(cps) is None,
                    }
                },
                Err(e) => e == Error::Io && pos + len > self.spec_reader_bytes().len(),
            }),
    ;
}

impl ReaderJisExt for [u8] {
    open spec fn spec_reader_bytes(&self) -> Seq<u8> {
        self@
    }

    fn read_jis_string(&self, pos: usize, len: usize) -> (r: Option<Vec<u8>>) {
        let data = self;
        let n = data.len();
        if pos > n || n - pos < len {
            return None;
        }
        let mut out: Vec<u8> = Vec::new();
        let mut i: usize = 0;
        proof {
            assert(data@.subrange(pos as int, pos as int) =~= Seq::<u8>::empty());
            assert(out@ =~= spec_jis_pairs(data@.subrange(pos as int, pos as int)));
        }
        while i < len
            invariant
                i <= len,
                i % 2 == 0,
                len % 2 == 0,
                pos + len <= data@.len(),
                out@ == spec_jis_pairs(data@.subrange(pos as int, pos + i)),
            decreases len - i,
        {
            proof {
                assert(i + 2 <= len);
            }
            let n2 = data.len();
            proof {
                assert(pos + i + 2 <= n2);
            }
            let a = data[pos + i];
            let b = data[pos + i + 1];
            if !(a == 0 && b == 0) {
                out.push(a);
                out.push(b);
            }
            proof {
                let t = data@.subrange(pos as int, pos + i + 2);
                assert(t.take(t.len() - 2) =~= data@.subrange(pos as int, pos + i));
                assert(t[t.len() - 2] == a && t[t.len() - 1] == b);
                assert(out@ =~= spec_jis_pairs(data@.subrange(pos as int, pos + i + 2)));
            }
            i += 2;
        }
        Some(out)
    }

    fn convert_jis_string(&self, pos: usize, len: usize) -> (r: Result<Option<String>, Error>) {
        let data = self;
        let n = data.len();
        if pos > n || n - pos < len {
            return Err(Error::Io);
        }
        let field = vstd::slice::slice_subrange(data, pos, pos + len);
        let trimmed = crate::catalog::trim_zero_cp(field);
        proof {
            crate::catalog::lemma_trim_zero_cp_even(field@);
        }
        let m = trimmed.len();
        let mut cps: Vec<u16> = Vec::new();
        let mut i: usize = 0;
        while i < m
            invariant
                i <= m,
                i % 2 == 0,
                m == trimmed@.len(),
                m % 2 == 0,
                cps@ == spec_le_codepoints(trimmed@.take(i as int)),
            decreases m - i,
        {
            proof {
                assert(i + 2 <= m);
            }
            let cp = le16_at(trimmed, i);
            cps.push(cp);
            proof {
                let t = trimmed@.take(i + 2);
                assert(t.take(t.len() - 2) =~= trimmed@.take(i as int));
                assert(spec_le16(t, t.len() - 2) == spec_le16(trimmed@, i as int));
                assert(cps@ =~= spec_le_codepoints(trimmed@.take(i + 2)));
            }
            i += 2;
        }
        proof {
            assert(trimmed@.take(m as int) =~= trimmed@);
        }
        Ok(crate::jis0208::decode_codepoints(cps.as_slice()))
    }
}

/// The little-endian code points of a byte sequence of even length.
pub open spec fn spec_le_codepoints(s: Seq<u8>) -> Seq<u16>
    recommends
        s.len() % 2 == 0,
    decreases s.len(),
{
    if s.len() < 2 {
        Seq::empty()
    } else {
        spec_le_codepoints(s.take(s.len() - 2)).push(spec_le16(s, s.len() - 2))
    }
}

// ---------------------------------------------------------------------------
// Byte-wise lexicographic comparison.
// ---------------------------------------------------------------------------

/// Lexicographic order on byte sequences: `a` at or before `b`.
pub open spec fn spec_seq_le(a: Seq<u8>, b: Seq<u8>) -> bool
    decreases a.len(),
{
    if a.len() == 0 {
        true
    } else if b.len() == 0 {
        false
    } else if a[0] < b[0] {
        true
    } else if a[0] > b[0] {
        false
    } else {
        spec_seq_le(a.drop_first(), b.drop_first())
    }
}

/// Compares two byte strings lexicographically.
pub fn bytes_le(a: &Vec<u8>, b: &Vec<u8>) -> (r: bool)
    ensures
        r == spec_seq_le(a@, b@),
{
    let mut i: usize = 0;
    proof {
        assert(a@.skip(0) =~= a@);
        assert(b@.skip(0) =~= b@);
    }
    while i < a.len() && i < b.len()
        invariant
            i <= a@.len(),
            i <= b@.len(),
            spec_seq_le(a@, b@) == spec_seq_le(a@.skip(i as int), b@.skip(i as int)),
        decreases a@.len() - i,
    {
        if a[i] < b[i] {
            return true;
        }
        if a[i] > b[i] {
            return false;
        }
        proof {
            assert(a@.skip(i as int).drop_first() =~= a@.skip(i + 1));
            assert(b@.skip(i as int).drop_first() =~= b@.skip(i + 1));
        }
        i += 1;
    }
    i >= a.len()
}

/// Compares two byte strings for equality.
pub fn bytes_eq(a: &Vec<u8>, b: &Vec<u8>) -> (r: bool)
    ensures
        r == (a@ == b@),
{
    if a.len() != b.len() {
        return false;
    }
    let mut i: usize = 0;
    while i < a.len()
        invariant
            i <= a@.len(),
            a@.len() == b@.len(),
            forall|j: int| 0 <= j < i ==> a@[j] == b@[j],
        decreases a@.len() - i,
    {
        if a[i] != b[i] {
            return false;
        }
        i += 1;
    }
    proof {
        assert(a@ =~= b@);
    }
    true
}

/// A character survives the JIS X 0208 round trip: it has a code point and
/// that code point decodes back to it.
pub open spec fn spec_representable(c: char) -> bool {
    match spec_jis_encode(c) {
        Some(cp) => spec_jis_decode(cp) == Some(c),
        None => false,
    }
}

/// The on-disk byte form always pairs bytes.
proof fn lemma_to_jis_even(s: Seq<char>)
    ensures
        spec_to_jis(s).len() % 2 == 0,
    decreases s.len(),
{
    if s.len() > 0 {
        lemma_to_jis_even(s.drop_last());
    }
}

/// Law: a string whose characters all survive the JIS X 0208 round trip is
/// returned unchanged by encoding and then decoding.
pub proof fn lemma_jis_round_trip(s: Seq<char>)
    ensures
        (forall|i: int| 0 <= i < s.len() ==> spec_representable(s[i])) ==> spec_to_unicode(
            spec_to_jis(s),
        ) == s,
    decreases s.len(),
{
    if forall|i: int| 0 <= i < s.len() ==> spec_representable(s[i]) {
        if s.len() == 0 {
            assert(spec_to_unicode(spec_to_jis(s)) =~= s);
        } else {
            let p = s.drop_last();
            let c = s.last();
            assert forall|i: int| 0 <= i < p.len() implies spec_representable(p[i]) by {
                assert(p[i] == s[i]);
            }
            lemma_jis_round_trip(p);
            lemma_to_jis_even(p);
            assert(spec_representable(c));
            match spec_jis_encode(c) {
                Some(cp) => {
                    let b = spec_to_jis(s);
                    let k = b.len() - 2;
                    assert(b =~= spec_to_jis(p) + seq![(cp / 0x100) as u8, (cp % 0x100) as u8]);
                    assert(b.take(k) =~= spec_to_jis(p));
                    // the decode side checks both bytes of the code point,
                    // so a decodable code point keeps its bytes small
                    assert(0x21 <= cp / 0x100 <= 0x7e && 0x21 <= cp % 0x100 <= 0x7e);
                    assert(spec_be16(b, k) == cp) by {
                        vstd::arithmetic::div_mod::lemma_fundamental_div_mod(cp as int, 0x100);
                    }
                    assert(spec_to_unicode(b) =~= s);
                },
                None => {
                    assert(false);
                },
            }
        }
    }
}

} // verus!
