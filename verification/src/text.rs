//! Decoder for the text stream of a subbook: interleaved two-byte JIS X
//! 0208 characters and in-band control escapes (`0x1F op [args]`).

use vstd::prelude::*;
use vstd::string::StringExecFns;

use crate::Error;
use crate::jis0208::decode_codepoint;
use crate::jis0208::spec_jis_decode;
use crate::util::CharWidthExt;
use crate::util::be16_at;
use crate::util::chars_to_string;
use crate::util::spec_be16;
use crate::util::spec_to_standard_width;

verus! {

/// One element of decoded text.
#[derive(Debug, PartialEq, Eq)]
pub enum TextElement {
    /// A run of literal text.
    UnicodeString(String),
    /// A font-defined character, kept as its code point.
    CustomCharacter(u16),
    Newline,
    /// An indent of the given width.
    Indent(u16),
    /// Newline prohibition switched on or off.
    NoNewline(bool),
    BeginDecoration(u16),
    EndDecoration,
    /// A control escape this library passes through, by label.
    Unsupported(String),
}

/// The mathematical content of one text element.
pub enum TextElementModel {
    UnicodeString(Seq<char>),
    CustomCharacter(u16),
    Newline,
    Indent(u16),
    NoNewline(bool),
    BeginDecoration(u16),
    EndDecoration,
    Unsupported(Seq<char>),
}

impl DeepView for TextElement {
    type V = TextElementModel;

    open spec fn deep_view(&self) -> TextElementModel {
        match self {
            TextElement::UnicodeString(s) => TextElementModel::UnicodeString(s@),
            TextElement::CustomCharacter(cp) => TextElementModel::CustomCharacter(*cp),
            TextElement::Newline => TextElementModel::Newline,
            TextElement::Indent(n) => TextElementModel::Indent(*n),
            TextElement::NoNewline(b) => TextElementModel::NoNewline(*b),
            TextElement::BeginDecoration(n) => TextElementModel::BeginDecoration(*n),
            TextElement::EndDecoration => TextElementModel::EndDecoration,
            TextElement::Unsupported(l) => TextElementModel::Unsupported(l@),
        }
    }
}

/// Decoded text: an ordered sequence of elements.
pub type Text = Vec<TextElement>;

/// How a successful decode ended.
pub enum TextEnd {
    /// On the end-of-text escape `0x1F 0x03`.
    EndMark,
    /// On a second occurrence of the delimiter keyword.
    KeywordRepeat(u16),
}

/// The outcome of decoding a text stream from a position.
pub enum TextDecode {
    Done { elems: Seq<TextElementModel>, end: int, stop: TextEnd, delim: Option<u16> },
    Fail,
}

/// No two adjacent literal runs: consecutive characters coalesce into one
/// `UnicodeString`.
pub open spec fn spec_no_adjacent_strings(elems: Seq<TextElementModel>) -> bool {
    forall|i: int|
        0 <= i < elems.len() - 1 ==> !((#[trigger] elems[i]) is UnicodeString && elems[i
            + 1] is UnicodeString)
}

/// Appends one character to decoded text: onto the final literal run if the
/// text ends with one, else as a new run.
pub open spec fn spec_push_char(acc: Seq<TextElementModel>, c: char) -> Seq<TextElementModel> {
    if acc.len() > 0 && acc.last() is UnicodeString {
        let s = match acc.last() {
            TextElementModel::UnicodeString(s) => s,
            _ => Seq::empty(),
        };
        acc.update(acc.len() - 1, TextElementModel::UnicodeString(s.push(c)))
    } else {
        acc.push(TextElementModel::UnicodeString(seq![c]))
    }
}

/// What decoding the stream `s` from `pos` yields, given the current narrow
/// mode, the recorded delimiter keyword and the elements so far.  Decoding
/// ends on `0x1F 0x03` or on a repeat of the delimiter keyword; it fails on
/// an unknown escape or when the stream ends first.
pub open spec fn spec_decode_text(
    s: Seq<u8>,
    pos: int,
    narrow: bool,
    delim: Option<u16>,
    acc: Seq<TextElementModel>,
) -> TextDecode
    decreases s.len() - pos,
{
    if pos < 0 || pos + 2 > s.len() {
        TextDecode::Fail
    } else if s[pos] == 0x1f {
        let op = s[pos + 1];
        let p2 = pos + 2;
        if op == 0x02 {
            spec_decode_text(s, p2, narrow, delim, acc)
        } else if op == 0x03 {
            TextDecode::Done { elems: acc, end: p2, stop: TextEnd::EndMark, delim }
        } else if op == 0x04 {
            spec_decode_text(s, p2, true, delim, acc)
        } else if op == 0x05 {
            spec_decode_text(s, p2, false, delim, acc)
        } else if op == 0x06 {
            spec_decode_text(s, p2, narrow, delim, acc.push(TextElementModel::Unsupported("sub"@)))
        } else if op == 0x07 {
            spec_decode_text(s, p2, narrow, delim, acc.push(TextElementModel::Unsupported("/sub"@)))
        } else if op == 0x09 {
            if p2 + 2 > s.len() {
                TextDecode::Fail
            } else {
                spec_decode_text(
                    s,
                    p2 + 2,
                    narrow,
                    delim,
                    acc.push(TextElementModel::Indent(spec_be16(s, p2))),
                )
            }
        } else if op == 0x0a {
            spec_decode_text(s, p2, narrow, delim, acc.push(TextElementModel::Newline))
        } else if op == 0x0e {
            spec_decode_text(s, p2, narrow, delim, acc.push(TextElementModel::Unsupported("sup"@)))
        } else if op == 0x0f {
            spec_decode_text(s, p2, narrow, delim, acc.push(TextElementModel::Unsupported("/sup"@)))
        } else if op == 0x10 {
            spec_decode_text(s, p2, narrow, delim, acc.push(TextElementModel::NoNewline(true)))
        } else if op == 0x11 {
            spec_decode_text(s, p2, narrow, delim, acc.push(TextElementModel::NoNewline(false)))
        } else if op == 0x41 {
            if p2 + 2 > s.len() {
                TextDecode::Fail
            } else {
                let k = spec_be16(s, p2);
                if delim == Some(k) {
                    TextDecode::Done { elems: acc, end: p2 + 2, stop: TextEnd::KeywordRepeat(k), delim }
                } else if delim is None {
                    spec_decode_text(s, p2 + 2, narrow, Some(k), acc)
                } else {
                    spec_decode_text(s, p2 + 2, narrow, delim, acc)
                }
            }
        } else if op == 0x42 {
            spec_decode_text(s, p2, narrow, delim, acc.push(TextElementModel::Unsupported("ref"@)))
        } else if op == 0x61 {
            spec_decode_text(s, p2, narrow, delim, acc)
        } else if op == 0x62 {
            if p2 + 6 > s.len() {
                TextDecode::Fail
            } else {
                spec_decode_text(
                    s,
                    p2 + 6,
                    narrow,
                    delim,
                    acc.push(TextElementModel::Unsupported("/ref"@)),
                )
            }
        } else if op == 0xe0 {
            if p2 + 2 > s.len() {
                TextDecode::Fail
            } else {
                spec_decode_text(
                    s,
                    p2 + 2,
                    narrow,
                    delim,
                    acc.push(TextElementModel::BeginDecoration(spec_be16(s, p2))),
                )
            }
        } else if op == 0xe1 {
            spec_decode_text(s, p2, narrow, delim, acc.push(TextElementModel::EndDecoration))
        } else {
            TextDecode::Fail
        }
    } else {
        let cp = spec_be16(s, pos);
        match spec_jis_decode(cp) {
            Some(c0) => {
                let c = if narrow {
                    spec_to_standard_width(c0)
                } else {
                    c0
                };
                spec_decode_text(s, pos + 2, narrow, delim, spec_push_char(acc, c))
            },
            None => spec_decode_text(
                s,
                pos + 2,
                narrow,
                delim,
                acc.push(TextElementModel::CustomCharacter(cp)),
            ),
        }
    }
}

/// What one element contributes to the plaintext projection.
pub open spec fn spec_plaintext_elem(e: TextElementModel) -> Seq<char> {
    match e {
        TextElementModel::UnicodeString(s) => s,
        TextElementModel::CustomCharacter(_) => Seq::empty(),
        TextElementModel::Newline => seq!['\n'],
        TextElementModel::Indent(n) => Seq::new(n as nat, |i: int| ' '),
        TextElementModel::NoNewline(_) => Seq::empty(),
        TextElementModel::BeginDecoration(_) => Seq::empty(),
        TextElementModel::EndDecoration => Seq::empty(),
        TextElementModel::Unsupported(l) => seq!['<'] + l + seq!['>'],
    }
}

/// The plaintext projection of decoded text: literal runs verbatim, a
/// newline per `Newline`, spaces per `Indent`, labels in angle brackets,
/// everything else dropped.
pub open spec fn spec_plaintext(elems: Seq<TextElementModel>) -> Seq<char>
    decreases elems.len(),
{
    if elems.len() == 0 {
        Seq::empty()
    } else {
        spec_plaintext(elems.drop_last()) + spec_plaintext_elem(elems.last())
    }
}

/// Projection of decoded text to a plain string.
pub trait ToPlaintext {
    /// The elements of this value.
    spec fn spec_text_elems(&self) -> Seq<TextElementModel>;

    /// Concatenates the plaintext contribution of every element.
    fn to_plaintext(&self) -> (r: String)
        ensures
            r@ == spec_plaintext(self.spec_text_elems()),
    ;
}

impl ToPlaintext for Vec<TextElement> {
    open spec fn spec_text_elems(&self) -> Seq<TextElementModel> {
        self.deep_view()
    }

    fn to_plaintext(&self) -> (r: String) {
        let mut chars: Vec<char> = Vec::new();
        let n = self.len();
        let mut i: usize = 0;
        proof {
            assert(chars@ =~= spec_plaintext(self.deep_view().take(0)));
        }
        while i < n
            invariant
                i <= n,
                n == self@.len(),
                chars@ == spec_plaintext(self.deep_view().take(i as int)),
            decreases n - i,
        {
            proof {
                assert(self.deep_view().take(i + 1).drop_last() =~= self.deep_view().take(i as int));
                assert(self.deep_view().take(i + 1).last() == self[i as int].deep_view());
            }
            push_plaintext_elem(&mut chars, &self[i]);
            i += 1;
        }
        proof {
            assert(self.deep_view().take(n as int) =~= self.deep_view());
        }
        chars_to_string(&chars)
    }
}

/// Appends one element's plaintext contribution.
fn push_plaintext_elem(chars: &mut Vec<char>, e: &TextElement)
    ensures
        final(chars)@ == old(chars)@ + spec_plaintext_elem(e.deep_view()),
{
    let ghost prev = chars@;
    match e {
        TextElement::UnicodeString(s) => {
            let m = s.unicode_len();
            let mut j: usize = 0;
            while j < m
                invariant
                    j <= m,
                    m == s@.len(),
                    chars@ == prev + s@.take(j as int),
                decreases m - j,
            {
                chars.push(s.get_char(j));
                proof {
                    assert(chars@ =~= prev + s@.take(j + 1));
                }
                j += 1;
            }
            proof {
                assert(prev + s@.take(m as int) =~= prev + s@);
            }
        },
        TextElement::CustomCharacter(_) => {
            proof {
                assert(chars@ =~= prev + Seq::<char>::empty());
            }
        },
        TextElement::Newline => {
            chars.push('\n');
            proof {
                assert(chars@ =~= prev + seq!['\n']);
            }
        },
        TextElement::Indent(num) => {
            let m = *num;
            let mut j: u16 = 0;
            while j < m
                invariant
                    j <= m,
                    chars@ == prev + Seq::new(j as nat, |i: int| ' '),
                decreases m - j,
            {
                chars.push(' ');
                proof {
                    assert(chars@ =~= prev + Seq::new((j + 1) as nat, |i: int| ' '));
                }
                j += 1;
            }
        },
        TextElement::NoNewline(_) => {
            proof {
                assert(chars@ =~= prev + Seq::<char>::empty());
            }
        },
        TextElement::BeginDecoration(_) => {
            proof {
                assert(chars@ =~= prev + Seq::<char>::empty());
            }
        },
        TextElement::EndDecoration => {
            proof {
                assert(chars@ =~= prev + Seq::<char>::empty());
            }
        },
        TextElement::Unsupported(l) => {
            chars.push('<');
            let m = l.unicode_len();
            let mut j: usize = 0;
            while j < m
                invariant
                    j <= m,
                    m == l@.len(),
                    chars@ == prev + seq!['<'] + l@.take(j as int),
                decreases m - j,
            {
                chars.push(l.get_char(j));
                proof {
                    assert(chars@ =~= prev + seq!['<'] + l@.take(j + 1));
                }
                j += 1;
            }
            chars.push('>');
            proof {
                assert(l@.take(m as int) =~= l@);
                assert(chars@ =~= prev + (seq!['<'] + l@ + seq!['>']));
            }
        },
    }
}

/// Law: every successful decode ends on the end-of-text escape `0x1F 0x03`
/// or on a repeat `0x1F 0x41 k` of the recorded delimiter keyword, and the
/// outcome says which.
pub proof fn lemma_decode_text_termination(
    s: Seq<u8>,
    pos: int,
    narrow: bool,
    delim: Option<u16>,
    acc: Seq<TextElementModel>,
)
    ensures
        (spec_decode_text(s, pos, narrow, delim, acc) matches TextDecode::Done {
            end,
            stop,
            delim: d,
            ..
        } ==> (match stop {
            TextEnd::EndMark => end >= 2 && s[end - 2] == 0x1f && s[end - 1] == 0x03,
            TextEnd::KeywordRepeat(k) => end >= 4 && s[end - 4] == 0x1f && s[end - 3] == 0x41
                && spec_be16(s, end - 2) == k && d == Some(k),
        })),
    decreases s.len() - pos,
{
    if pos < 0 || pos + 2 > s.len() {
    } else if s[pos] == 0x1f {
        let op = s[pos + 1];
        let p2 = pos + 2;
        if op == 0x02 {
            lemma_decode_text_termination(s, p2, narrow, delim, acc);
        } else if op == 0x03 {
        } else if op == 0x04 {
            lemma_decode_text_termination(s, p2, true, delim, acc);
        } else if op == 0x05 {
            lemma_decode_text_termination(s, p2, false, delim, acc);
        } else if op == 0x06 {
            lemma_decode_text_termination(
                s,
                p2,
                narrow,
                delim,
                acc.push(TextElementModel::Unsupported("sub"@)),
            );
        } else if op == 0x07 {
            lemma_decode_text_termination(
                s,
                p2,
                narrow,
                delim,
                acc.push(TextElementModel::Unsupported("/sub"@)),
            );
        } else if op == 0x09 {
            if p2 + 2 <= s.len() {
                lemma_decode_text_termination(
                    s,
                    p2 + 2,
                    narrow,
                    delim,
                    acc.push(TextElementModel::Indent(spec_be16(s, p2))),
                );
            }
        } else if op == 0x0a {
            lemma_decode_text_termination(s, p2, narrow, delim, acc.push(TextElementModel::Newline));
        } else if op == 0x0e {
            lemma_decode_text_termination(
                s,
                p2,
                narrow,
                delim,
                acc.push(TextElementModel::Unsupported("sup"@)),
            );
        } else if op == 0x0f {
            lemma_decode_text_termination(
                s,
                p2,
                narrow,
                delim,
                acc.push(TextElementModel::Unsupported("/sup"@)),
            );
        } else if op == 0x10 {
            lemma_decode_text_termination(
                s,
                p2,
                narrow,
                delim,
                acc.push(TextElementModel::NoNewline(true)),
            );
        } else if op == 0x11 {
            lemma_decode_text_termination(
                s,
                p2,
                narrow,
                delim,
                acc.push(TextElementModel::NoNewline(false)),
            );
        } else if op == 0x41 {
            if p2 + 2 <= s.len() {
                let k = spec_be16(s, p2);
                if delim == Some(k) {
                } else if delim is None {
                    lemma_decode_text_termination(s, p2 + 2, narrow, Some(k), acc);
                } else {
                    lemma_decode_text_termination(s, p2 + 2, narrow, delim, acc);
                }
            }
        } else if op == 0x42 {
            lemma_decode_text_termination(
                s,
                p2,
                narrow,
                delim,
                acc.push(TextElementModel::Unsupported("ref"@)),
            );
        } else if op == 0x61 {
            lemma_decode_text_termination(s, p2, narrow, delim, acc);
        } else if op == 0x62 {
            if p2 + 6 <= s.len() {
                lemma_decode_text_termination(
                    s,
                    p2 + 6,
                    narrow,
                    delim,
                    acc.push(TextElementModel::Unsupported("/ref"@)),
                );
            }
        } else if op == 0xe0 {
            if p2 + 2 <= s.len() {
                lemma_decode_text_termination(
                    s,
                    p2 + 2,
                    narrow,
                    delim,
                    acc.push(TextElementModel::BeginDecoration(spec_be16(s, p2))),
                );
            }
        } else if op == 0xe1 {
            lemma_decode_text_termination(
                s,
                p2,
                narrow,
                delim,
                acc.push(TextElementModel::EndDecoration),
            );
        }
    } else {
        let cp = spec_be16(s, pos);
        match spec_jis_decode(cp) {
            Some(c0) => {
                let c = if narrow {
                    spec_to_standard_width(c0)
                } else {
                    c0
                };
                lemma_decode_text_termination(s, pos + 2, narrow, delim, spec_push_char(acc, c));
            },
            None => {
                lemma_decode_text_termination(
                    s,
                    pos + 2,
                    narrow,
                    delim,
                    acc.push(TextElementModel::CustomCharacter(cp)),
                );
            },
        }
    }
}

/// The elements so far, with a pending literal run still open at the end.
pub open spec fn spec_acc(elems: Seq<TextElementModel>, run: Seq<char>) -> Seq<TextElementModel> {
    if run.len() == 0 {
        elems
    } else {
        elems.push(TextElementModel::UnicodeString(run))
    }
}

/// Closes the pending literal run, then appends one non-literal element.
fn push_element(out: &mut Vec<TextElement>, run: &mut Vec<char>, e: TextElement)
    requires
        old(out).deep_view().len() > 0 ==> !(old(out).deep_view().last() is UnicodeString),
        spec_no_adjacent_strings(old(out).deep_view()),
        !(e.deep_view() is UnicodeString),
    ensures
        final(out).deep_view() == spec_acc(old(out).deep_view(), old(run)@).push(e.deep_view()),
        final(run)@.len() == 0,
        final(out).deep_view().len() > 0 && !(final(out).deep_view().last() is UnicodeString),
        spec_no_adjacent_strings(final(out).deep_view()),
{
    let ghost prev = out.deep_view();
    let ghost pending = run@;
    let ghost model = e.deep_view();
    if run.len() > 0 {
        let s = chars_to_string(run);
        out.push(TextElement::UnicodeString(s));
        run.clear();
    }
    out.push(e);
    proof {
        assert(out.deep_view() =~= spec_acc(prev, pending).push(model));
        let now = out.deep_view();
        assert forall|i: int|
            0 <= i < now.len() - 1 implies !((#[trigger] now[i]) is UnicodeString && now[i
            + 1] is UnicodeString) by {
            if pending.len() == 0 {
                if i < prev.len() - 1 {
                    assert(now[i] == prev[i] && now[i + 1] == prev[i + 1]);
                }
            } else {
                if i < prev.len() - 1 {
                    assert(now[i] == prev[i] && now[i + 1] == prev[i + 1]);
                } else if i == prev.len() - 1 {
                    assert(!(now[i] is UnicodeString));
                }
            }
        }
    }
}

/// Decodes the text stream of `data` starting at `pos0`.
pub(crate) fn read_text_from(data: &[u8], pos0: usize) -> (r: Result<Text, Error>)
    ensures
        (match r {
            Ok(t) => {
                &&& spec_decode_text(
                    data@,
                    pos0 as int,
                    false,
                    None,
                    Seq::empty(),
                ) matches TextDecode::Done { elems, .. } && t.deep_view() == elems
                &&& spec_no_adjacent_strings(t.deep_view())
            },
            Err(e) => e == Error::InvalidFormat && spec_decode_text(
                data@,
                pos0 as int,
                false,
                None,
                Seq::empty(),
            ) is Fail,
        }),
{
    let n = data.len();
    let mut out: Vec<TextElement> = Vec::new();
    let mut run: Vec<char> = Vec::new();
    let mut narrow = false;
    let mut delim: Option<u16> = None;
    let mut pos = if pos0 <= n {
        pos0
    } else {
        return Err(Error::InvalidFormat);
    };
    proof {
        assert(out.deep_view() =~= Seq::<TextElementModel>::empty());
    }
    loop
        invariant
            n == data@.len(),
            pos <= n,
            spec_decode_text(data@, pos0 as int, false, None, Seq::empty()) == spec_decode_text(
                data@,
                pos as int,
                narrow,
                delim,
                spec_acc(out.deep_view(), run@),
            ),
            out.deep_view().len() > 0 ==> !(out.deep_view().last() is UnicodeString),
            spec_no_adjacent_strings(out.deep_view()),
        decreases n - pos,
    {
        let ghost acc0 = spec_acc(out.deep_view(), run@);
        if n - pos < 2 {
            return Err(Error::InvalidFormat);
        }
        let b = data[pos];
        if b == 0x1f {
            let op = data[pos + 1];
            if op == 0x02 {
                pos += 2;
            } else if op == 0x03 {
                if run.len() > 0 {
                    let s = chars_to_string(&run);
                    out.push(TextElement::UnicodeString(s));
                }
                proof {
                    assert(out.deep_view() =~= acc0);
                    assert(spec_no_adjacent_strings(acc0));
                }
                return Ok(out);
            } else if op == 0x04 {
                narrow = true;
                pos += 2;
            } else if op == 0x05 {
                narrow = false;
                pos += 2;
            } else if op == 0x06 {
                push_element(&mut out, &mut run, TextElement::Unsupported(String::from_str("sub")));
                pos += 2;
            } else if op == 0x07 {
                push_element(&mut out, &mut run, TextElement::Unsupported(String::from_str("/sub")));
                pos += 2;
            } else if op == 0x09 {
                if n - pos < 4 {
                    return Err(Error::InvalidFormat);
                }
                let v = be16_at(data, pos + 2);
                push_element(&mut out, &mut run, TextElement::Indent(v));
                pos += 4;
            } else if op == 0x0a {
                push_element(&mut out, &mut run, TextElement::Newline);
                pos += 2;
            } else if op == 0x0e {
                push_element(&mut out, &mut run, TextElement::Unsupported(String::from_str("sup")));
                pos += 2;
            } else if op == 0x0f {
                push_element(&mut out, &mut run, TextElement::Unsupported(String::from_str("/sup")));
                pos += 2;
            } else if op == 0x10 {
                push_element(&mut out, &mut run, TextElement::NoNewline(true));
                pos += 2;
            } else if op == 0x11 {
                push_element(&mut out, &mut run, TextElement::NoNewline(false));
                pos += 2;
            } else if op == 0x41 {
                if n - pos < 4 {
                    return Err(Error::InvalidFormat);
                }
                let k = be16_at(data, pos + 2);
                let repeat = match delim {
                    Some(d) => d == k,
                    None => false,
                };
                if repeat {
                    if run.len() > 0 {
                        let s = chars_to_string(&run);
                        out.push(TextElement::UnicodeString(s));
                    }
                    proof {
                        assert(out.deep_view() =~= acc0);
                        assert(spec_no_adjacent_strings(acc0));
                    }
                    return Ok(out);
                } else if delim.is_none() {
                    delim = Some(k);
                    pos += 4;
                } else {
                    pos += 4;
                }
            } else if op == 0x42 {
                push_element(&mut out, &mut run, TextElement::Unsupported(String::from_str("ref")));
                pos += 2;
            } else if op == 0x61 {
                pos += 2;
            } else if op == 0x62 {
                if n - pos < 8 {
                    return Err(Error::InvalidFormat);
                }
                push_element(&mut out, &mut run, TextElement::Unsupported(String::from_str("/ref")));
                pos += 8;
            } else if op == 0xe0 {
                if n - pos < 4 {
                    return Err(Error::InvalidFormat);
                }
                let v = be16_at(data, pos + 2);
                push_element(&mut out, &mut run, TextElement::BeginDecoration(v));
                pos += 4;
            } else if op == 0xe1 {
                push_element(&mut out, &mut run, TextElement::EndDecoration);
                pos += 2;
            } else {
                return Err(Error::InvalidFormat);
            }
        } else {
            let cp = be16_at(data, pos);
            match decode_codepoint(cp) {
                Some(c0) => {
                    let c = if narrow {
                        c0.to_standard_width()
                    } else {
                        c0
                    };
                    let ghost prev_run = run@;
                    run.push(c);
                    proof {
                        if prev_run.len() == 0 {
                            assert(run@ =~= seq![c]);
                            assert(spec_push_char(acc0, c) =~= spec_acc(out.deep_view(), run@));
                        } else {
                            assert(acc0.last() is UnicodeString);
                            assert(spec_push_char(acc0, c) =~= spec_acc(out.deep_view(), run@));
                        }
                    }
                    pos += 2;
                },
                None => {
                    push_element(&mut out, &mut run, TextElement::CustomCharacter(cp));
                    pos += 2;
                },
            }
        }
    }
}

} // verus!
