//! Parser for the `CATALOGS` manifest at the root of a book directory.

use vstd::prelude::*;
use vstd::slice::slice_subrange;
use vstd::slice::slice_to_vec;

use crate::Error;
use crate::jis0208::spec_codepoints_of_bytes;
use crate::jis0208::spec_decode_codepoints;
use crate::jis0208::decode_string;
use crate::util::spec_be16;
use crate::util::be16_at;

verus! {

/// The decoded `CATALOGS` manifest.
#[derive(Debug)]
pub struct Catalog {
    pub epwing_version: u16,
    pub subbooks: Vec<Subbook>,
}

/// One subbook descriptor of the manifest.
#[derive(Debug, Clone)]
pub struct Subbook {
    /// Title, decoded from JIS X 0208.
    pub title: String,
    /// Directory name, ASCII, right-padded with spaces.
    pub directory: Vec<u8>,
    /// First page of the subbook's index table.
    pub index_page: u16,
    /// Name of the subbook's data file.
    pub text_file: Vec<u8>,
}

/// The mathematical content of one subbook descriptor.
pub struct SubbookModel {
    pub title: Seq<char>,
    pub directory: Seq<u8>,
    pub index_page: u16,
    pub text_file: Seq<u8>,
}

impl DeepView for Subbook {
    type V = SubbookModel;

    open spec fn deep_view(&self) -> SubbookModel {
        SubbookModel {
            title: self.title@,
            directory: self.directory@,
            index_page: self.index_page,
            text_file: self.text_file@,
        }
    }
}

/// The default data file name, the ASCII bytes `HONMON`.
pub open spec fn spec_honmon() -> Seq<u8> {
    seq![0x48u8, 0x4fu8, 0x4eu8, 0x4du8, 0x4fu8, 0x4eu8]
}

/// A title field truncated at its first `(0x00, 0x00)` byte pair.
pub open spec fn spec_trim_zero_cp(s: Seq<u8>) -> Seq<u8>
    recommends
        s.len() % 2 == 0,
    decreases s.len(),
{
    if s.len() < 2 {
        s
    } else if s[0] == 0 && s[1] == 0 {
        Seq::empty()
    } else {
        s.subrange(0, 2) + spec_trim_zero_cp(s.subrange(2, s.len() as int))
    }
}

/// Truncating at a zero pair keeps the byte count even.
pub proof fn lemma_trim_zero_cp_even(s: Seq<u8>)
    requires
        s.len() % 2 == 0,
    ensures
        spec_trim_zero_cp(s).len() % 2 == 0,
    decreases s.len(),
{
    if s.len() >= 2 && !(s[0] == 0 && s[1] == 0) {
        lemma_trim_zero_cp_even(s.subrange(2, s.len() as int));
    }
}

/// Truncates a buffer of byte pairs at the first `(0x00, 0x00)` pair.
pub fn trim_zero_cp<'a>(slice: &'a [u8]) -> (r: &'a [u8])
    requires
        slice@.len() % 2 == 0,
    ensures
        r@ == spec_trim_zero_cp(slice@),
{
    let n = slice.len();
    let mut i: usize = 0;
    proof {
        assert(slice@.skip(0) =~= slice@);
        assert(slice@.take(0) + spec_trim_zero_cp(slice@) =~= spec_trim_zero_cp(slice@));
    }
    while i < n
        invariant
            i <= n,
            i % 2 == 0,
            n == slice@.len(),
            n % 2 == 0,
            spec_trim_zero_cp(slice@) == slice@.take(i as int) + spec_trim_zero_cp(
                slice@.skip(i as int),
            ),
        decreases n - i,
    {
        proof {
            assert(i + 2 <= n);
        }
        if slice[i] == 0 && slice[i + 1] == 0 {
            proof {
                assert(slice@.skip(i as int)[0] == 0 && slice@.skip(i as int)[1] == 0);
                assert(spec_trim_zero_cp(slice@) =~= slice@.take(i as int));
            }
            return slice_subrange(slice, 0, i);
        }
        proof {
            let rest = slice@.skip(i as int);
            assert(!(rest[0] == 0 && rest[1] == 0));
            assert(rest.subrange(2, rest.len() as int) =~= slice@.skip(i + 2));
            assert(slice@.take(i as int) + rest.subrange(0, 2) =~= slice@.take(i + 2));
            assert(slice@.take(i as int) + spec_trim_zero_cp(rest) =~= slice@.take(i + 2)
                + spec_trim_zero_cp(slice@.skip(i + 2)));
        }
        i += 2;
    }
    proof {
        assert(spec_trim_zero_cp(slice@.skip(n as int)) =~= Seq::<u8>::empty());
        assert(slice@.take(n as int) + spec_trim_zero_cp(slice@.skip(n as int)) =~= slice@);
    }
    slice_subrange(slice, 0, n)
}

/// What one 96-byte subbook entry at `off` holds: 2 reserved bytes, an
/// 80-byte zero-terminated JIS title, an 8-byte directory name, 4 reserved
/// bytes and the index page; the data file name defaults to `HONMON`.
pub open spec fn spec_parse_subbook_entry(s: Seq<u8>, off: int) -> Result<SubbookModel, Error>
    recommends
        0 <= off,
        off + 96 <= s.len(),
{
    let title_bytes = spec_trim_zero_cp(s.subrange(off + 2, off + 82));
    match spec_decode_codepoints(spec_codepoints_of_bytes(title_bytes)) {
        Some(title) => Ok(
            SubbookModel {
                title: title,
                directory: s.subrange(off + 82, off + 90),
                index_page: spec_be16(s, off + 94),
                text_file: spec_honmon(),
            },
        ),
        None => Err(Error::InvalidEncoding),
    }
}

/// The first `k` subbook entries, or the error of the first bad one.
pub open spec fn spec_parse_subbook_entries(s: Seq<u8>, k: int) -> Result<Seq<SubbookModel>, Error>
    decreases k,
{
    if k <= 0 {
        Ok(Seq::empty())
    } else {
        match (spec_parse_subbook_entries(s, k - 1), spec_parse_subbook_entry(
            s,
            16 + 96 * (k - 1),
        )) {
            (Ok(rest), Ok(sb)) => Ok(rest.push(sb)),
            (Err(e), _) => Err(e),
            (Ok(_), Err(e)) => Err(e),
        }
    }
}

/// What a `CATALOGS` file holds: a subbook count, the format version, 12
/// reserved bytes, then one 96-byte entry per subbook.  A file shorter than
/// its own entry table is a short read.
pub open spec fn spec_parse_catalog(s: Seq<u8>) -> Result<(u16, Seq<SubbookModel>), Error> {
    if s.len() < 16 {
        Err(Error::Io)
    } else {
        let n = spec_be16(s, 0) as int;
        if s.len() < 16 + 96 * n {
            Err(Error::Io)
        } else {
            match spec_parse_subbook_entries(s, n) {
                Ok(subbooks) => Ok((spec_be16(s, 2), subbooks)),
                Err(e) => Err(e),
            }
        }
    }
}

impl Catalog {
    /// Decodes a whole `CATALOGS` file.
    pub fn from_stream(data: &[u8]) -> (r: Result<Catalog, Error>)
        ensures
            (match r {
                Ok(c) => spec_parse_catalog(data@) == Ok::<_, Error>(
                    (c.epwing_version, c.subbooks.deep_view()),
                ),
                Err(e) => spec_parse_catalog(data@) == Err::<(u16, Seq<SubbookModel>), _>(e),
            }),
    {
        if data.len() < 16 {
            return Err(Error::Io);
        }
        let n_subbooks = be16_at(data, 0) as usize;
        let epwing_version = be16_at(data, 2);
        if (data.len() - 16) / 96 < n_subbooks {
            proof {
                assert(data@.len() < 16 + 96 * (spec_be16(data@, 0) as int));
            }
            return Err(Error::Io);
        }
        proof {
            assert(data@.len() >= 16 + 96 * (spec_be16(data@, 0) as int));
        }
        let mut subbooks: Vec<Subbook> = Vec::new();
        proof {
            assert(subbooks.deep_view() =~= Seq::<SubbookModel>::empty());
        }
        let mut i: usize = 0;
        while i < n_subbooks
            invariant
                i <= n_subbooks,
                n_subbooks == spec_be16(data@, 0) as int,
                data@.len() >= 16 + 96 * (n_subbooks as int),
                spec_parse_subbook_entries(data@, i as int) == Ok::<_, Error>(
                    subbooks.deep_view(),
                ),
            decreases n_subbooks - i,
        {
            match Self::parse_entry(data, 16 + 96 * i) {
                Ok(sb) => {
                    let ghost prev = subbooks.deep_view();
                    let ghost model = sb.deep_view();
                    subbooks.push(sb);
                    proof {
                        assert(subbooks.deep_view() =~= prev.push(model));
                    }
                },
                Err(e) => {
                    proof {
                        lemma_parse_subbook_entries_failure(data@, n_subbooks as int, i as int, e);
                    }
                    return Err(e);
                },
            }
            i += 1;
        }
        Ok(Catalog { epwing_version, subbooks })
    }

    /// Decodes the 96-byte subbook entry at `off`.
    fn parse_entry(data: &[u8], off: usize) -> (r: Result<Subbook, Error>)
        requires
            off + 96 <= data@.len(),
        ensures
            (match r {
                Ok(sb) => spec_parse_subbook_entry(data@, off as int) == Ok::<_, Error>(
                    sb.deep_view(),
                ),
                Err(e) => spec_parse_subbook_entry(data@, off as int) == Err::<SubbookModel, _>(e),
            }),
    {
        let n = data.len();
        proof {
            assert(off + 96 <= n);
        }
        let title_field = slice_subrange(data, off + 2, off + 82);
        let trimmed = trim_zero_cp(title_field);
        proof {
            lemma_trim_zero_cp_even(title_field@);
        }
        let title = match decode_string(trimmed) {
            Some(t) => t,
            None => {
                return Err(Error::InvalidEncoding);
            },
        };
        let directory = slice_to_vec(slice_subrange(data, off + 82, off + 90));
        let index_page = be16_at(data, off + 94);
        let mut text_file: Vec<u8> = Vec::new();
        text_file.push(0x48);
        text_file.push(0x4f);
        text_file.push(0x4e);
        text_file.push(0x4d);
        text_file.push(0x4f);
        text_file.push(0x4e);
        proof {
            assert(text_file@ =~= spec_honmon());
        }
        Ok(Subbook { title, directory, index_page, text_file })
    }
}

/// If entry `i` of the table is bad, the whole table reports its error.
proof fn lemma_parse_subbook_entries_failure(s: Seq<u8>, k: int, i: int, e: Error)
    requires
        0 <= i < k,
        spec_parse_subbook_entries(s, i) is Ok,
        spec_parse_subbook_entry(s, 16 + 96 * i) == Err::<SubbookModel, Error>(e),
    ensures
        spec_parse_subbook_entries(s, k) == Err::<Seq<SubbookModel>, Error>(e),
    decreases k,
{
    if i == k - 1 {
    } else {
        lemma_parse_subbook_entries_failure(s, k - 1, i, e);
    }
}

} // verus!
