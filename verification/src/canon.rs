//! Canonicalization of query words before index comparison.

use vstd::prelude::*;

use crate::util::CharWidthExt;
use crate::util::spec_to_fullwidth;

verus! {

/// One canonicalization switch.
#[derive(Clone, Copy, Debug, PartialEq, Eq, Structural)]
pub enum Canonicalization {
    Convert,
    AsIs,
    Delete,
}

impl Canonicalization {
    /// How a two-bit flag field decodes: 0 converts, 1 keeps, 2 deletes,
    /// anything else is malformed.
    pub open spec fn spec_from_field(field: u8) -> Option<Canonicalization> {
        if field == 0x00 {
            Some(Canonicalization::Convert)
        } else if field == 0x01 {
            Some(Canonicalization::AsIs)
        } else if field == 0x02 {
            Some(Canonicalization::Delete)
        } else {
            None
        }
    }

    /// Decodes a two-bit flag field into a switch.
    pub fn from_field(field: u8) -> (r: Option<Canonicalization>)
        ensures
            r == Self::spec_from_field(field),
    {
        match field {
            0x00 => Some(Canonicalization::Convert),
            0x01 => Some(Canonicalization::AsIs),
            0x02 => Some(Canonicalization::Delete),
            _ => None,
        }
    }
}

// ---------------------------------------------------------------------------
// Case folding.
//
// Which characters are lowercase, and what their uppercase mappings are,
// is the business of the Unicode tables behind the standard library; the
// results are given names here.
// ---------------------------------------------------------------------------

/// What `char::is_lowercase` returns: whether the character is lowercase.
pub uninterp spec fn char_is_lower(c: char) -> bool;

/// What `char::to_uppercase` returns: the uppercase mapping, one or more
/// characters.
pub uninterp spec fn char_upper(c: char) -> Seq<char>;

/// Relies on `char::is_lowercase`: a pure table lookup, so the result
/// depends on the character alone.
#[verifier::external_body]
fn is_lowercase_char(c: char) -> (r: bool)
    ensures
        r == char_is_lower(c),
{
    c.is_lowercase()
}

/// Relies on `char::to_uppercase`: a pure table lookup yielding one or more
/// characters, so the result depends on the character alone.
#[verifier::external_body]
fn to_uppercase_chars(c: char) -> (r: Vec<char>)
    ensures
        r@ == char_upper(c),
        r@.len() >= 1,
{
    c.to_uppercase().collect()
}

/// The ten independent switches an index was built with.
#[derive(Clone, Copy, Debug, PartialEq, Eq, Structural)]
pub struct CanonicalizationRules {
    pub katakana: Canonicalization,
    pub lower: Canonicalization,
    pub mark: Canonicalization,
    pub long_vowel: Canonicalization,
    pub double_consonant: Canonicalization,
    pub contracted_sound: Canonicalization,
    pub small_vowel: Canonicalization,
    pub voiced_consonant: Canonicalization,
    pub p_sound: Canonicalization,
    pub space: Canonicalization,
}

// ---------------------------------------------------------------------------
// The canonicalization transform.
// ---------------------------------------------------------------------------

/// What one character contributes to the canonical form: it is folded to
/// fullwidth; an ideographic space is dropped when the space rule deletes;
/// a lowercase character is uppercased when the lower rule converts.
pub open spec fn spec_canon_char(c: char, rules: CanonicalizationRules) -> Seq<char> {
    let f = spec_to_fullwidth(c);
    if rules.space is Delete && f == '\u{3000}' {
        Seq::empty()
    } else if rules.lower is Convert && char_is_lower(f) {
        char_upper(f)
    } else {
        seq![f]
    }
}

/// The canonical form of a character sequence, left to right.
pub open spec fn spec_canonicalize(s: Seq<char>, rules: CanonicalizationRules) -> Seq<char>
    decreases s.len(),
{
    if s.len() == 0 {
        Seq::empty()
    } else {
        spec_canonicalize(s.drop_last(), rules) + spec_canon_char(s.last(), rules)
    }
}

/// Normalization of a query word before index comparison.
pub trait CanonicalizeExt {
    /// The characters of this value.
    spec fn spec_query_chars(&self) -> Seq<char>;

    /// Applies a rule set to every character, left to right.
    fn canonicalize(&self, rules: &CanonicalizationRules) -> (r: String)
        ensures
            r@ == spec_canonicalize(self.spec_query_chars(), *rules),
    ;
}

impl CanonicalizeExt for str {
    open spec fn spec_query_chars(&self) -> Seq<char> {
        self@
    }

    fn canonicalize(&self, rules: &CanonicalizationRules) -> (r: String) {
        let n = self.unicode_len();
        let mut out: Vec<char> = Vec::new();
        let mut i: usize = 0;
        while i < n
            invariant
                i <= n,
                n == self@.len(),
                out@ == spec_canonicalize(self@.take(i as int), *rules),
            decreases n - i,
        {
            let c = self.get_char(i);
            proof {
                assert(self@.take(i + 1).drop_last() =~= self@.take(i as int));
            }
            let f = c.to_fullwidth();
            if rules.space == Canonicalization::Delete && f == '\u{3000}' {
                // dropped
            } else if rules.lower == Canonicalization::Convert && is_lowercase_char(f) {
                let mut up = to_uppercase_chars(f);
                out.append(&mut up);
            } else {
                out.push(f);
            }
            proof {
                assert(out@ =~= spec_canonicalize(self@.take(i + 1), *rules));
            }
            i += 1;
        }
        proof {
            assert(self@.take(n as int) =~= self@);
        }
        crate::util::chars_to_string(&out)
    }
}

// ---------------------------------------------------------------------------
// Idempotence.
// ---------------------------------------------------------------------------

/// A character that canonicalization leaves alone under a rule set.
pub open spec fn spec_char_canonical(c: char, rules: CanonicalizationRules) -> bool {
    spec_canon_char(c, rules) == seq![c]
}

/// A rule set under which every character the transform emits is itself
/// canonical: the width fold is stable on emitted characters and uppercase
/// mappings do not fall back into lowercase.
pub open spec fn spec_rules_stable(rules: CanonicalizationRules) -> bool {
    forall|c: char, i: int|
        0 <= i < spec_canon_char(c, rules).len() ==> spec_char_canonical(
            #[trigger] spec_canon_char(c, rules)[i],
            rules,
        )
}

/// Canonicalization distributes over concatenation.
proof fn lemma_canonicalize_concat(a: Seq<char>, b: Seq<char>, rules: CanonicalizationRules)
    ensures
        spec_canonicalize(a + b, rules) == spec_canonicalize(a, rules) + spec_canonicalize(
            b,
            rules,
        ),
    decreases b.len(),
{
    if b.len() == 0 {
        assert(a + b =~= a);
        assert(spec_canonicalize(a, rules) + spec_canonicalize(b, rules) =~= spec_canonicalize(
            a,
            rules,
        ));
    } else {
        lemma_canonicalize_concat(a, b.drop_last(), rules);
        assert((a + b).drop_last() =~= a + b.drop_last());
        assert(spec_canonicalize(a + b, rules) =~= spec_canonicalize(a, rules)
            + spec_canonicalize(b, rules));
    }
}

/// A sequence of canonical characters is its own canonical form.
proof fn lemma_canonicalize_fixed(s: Seq<char>, rules: CanonicalizationRules)
    requires
        forall|i: int| 0 <= i < s.len() ==> spec_char_canonical(s[i], rules),
    ensures
        spec_canonicalize(s, rules) == s,
    decreases s.len(),
{
    if s.len() == 0 {
        assert(spec_canonicalize(s, rules) =~= s);
    } else {
        lemma_canonicalize_fixed(s.drop_last(), rules);
        assert(spec_char_canonical(s.last(), rules));
        assert(spec_canonicalize(s, rules) =~= s);
    }
}

/// Under a stable rule set, every character of a canonical form is canonical.
proof fn lemma_canonicalize_emits_canonical(s: Seq<char>, rules: CanonicalizationRules)
    requires
        spec_rules_stable(rules),
    ensures
        forall|i: int|
            0 <= i < spec_canonicalize(s, rules).len() ==> spec_char_canonical(
                #[trigger] spec_canonicalize(s, rules)[i],
                rules,
            ),
    decreases s.len(),
{
    if s.len() > 0 {
        lemma_canonicalize_emits_canonical(s.drop_last(), rules);
        assert forall|i: int|
            0 <= i < spec_canonicalize(s, rules).len() implies spec_char_canonical(
            #[trigger] spec_canonicalize(s, rules)[i],
            rules,
        ) by {
            let p = spec_canonicalize(s.drop_last(), rules);
            let t = spec_canon_char(s.last(), rules);
            if i < p.len() {
                assert(spec_canonicalize(s, rules)[i] == p[i]);
            } else {
                assert(spec_canonicalize(s, rules)[i] == t[i - p.len()]);
            }
        }
    }
}

/// Law: canonicalization is idempotent under a stable rule set; applying
/// the same rules to an already canonical form changes nothing.
pub proof fn lemma_canonicalize_idempotent(s: Seq<char>, rules: CanonicalizationRules)
    ensures
        spec_rules_stable(rules) ==> spec_canonicalize(
            spec_canonicalize(s, rules),
            rules,
        ) == spec_canonicalize(s, rules),
{
    if spec_rules_stable(rules) {
        lemma_canonicalize_emits_canonical(s, rules);
        lemma_canonicalize_fixed(spec_canonicalize(s, rules), rules);
    }
}

} // verus!
