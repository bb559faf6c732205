//! Reader for dictionaries in the EPWING electronic-book format.
//!
//! A book is a directory holding a `CATALOGS` manifest and one subdirectory
//! per subbook; each subbook is backed by a single paginated binary file that
//! packages text, search indices and per-index canonicalization rules.  All
//! parsing and searching here works over in-memory byte buffers; opening the
//! files and reading their bytes is the caller's business.

use vstd::prelude::*;

pub mod canon;
pub mod catalog;
pub mod jis0208;
pub mod subbook;
pub mod text;
pub mod util;

pub use text::ToPlaintext;

use vstd::slice::slice_subrange;

verus! {

/// The error union of the library.
#[derive(Clone, Copy, Debug, PartialEq, Eq, Structural)]
pub enum Error {
    /// An underlying read failed or the input was shorter than the format demands.
    Io,
    /// A JIS X 0208 byte pair had no mapping where one is required.
    InvalidEncoding,
    /// The data is structurally malformed.
    InvalidFormat,
    /// The requested index kind is not present in this subbook.
    IndexNotAvailable,
}

impl Error {
    /// The description of each error kind.
    pub open spec fn spec_description(self) -> Seq<char> {
        match self {
            Error::Io => "input/output error"@,
            Error::InvalidEncoding => "encountered non-JIS X 0208 character"@,
            Error::InvalidFormat => "file is malformed"@,
            Error::IndexNotAvailable => "requested index is not available"@,
        }
    }

    /// A short human-readable description of the error.
    pub fn description(&self) -> (r: String)
        ensures
            r@ == self.spec_description(),
    {
        match self {
            Error::Io => String::from_str("input/output error"),
            Error::InvalidEncoding => String::from_str("encountered non-JIS X 0208 character"),
            Error::InvalidFormat => String::from_str("file is malformed"),
            Error::IndexNotAvailable => String::from_str("requested index is not available"),
        }
    }
}

// ---------------------------------------------------------------------------
// The book facade.
// ---------------------------------------------------------------------------

/// A byte string with its trailing ASCII spaces removed.
pub open spec fn spec_trim_trailing_spaces(s: Seq<u8>) -> Seq<u8>
    decreases s.len(),
{
    if s.len() == 0 {
        s
    } else if s.last() == 0x20 {
        spec_trim_trailing_spaces(s.drop_last())
    } else {
        s
    }
}

/// The path of a subbook's data file below the book root: the directory
/// name with its space padding trimmed, then `DATA`, then the data file
/// name, joined with `/`.
pub open spec fn spec_subbook_path(root: Seq<u8>, directory: Seq<u8>, text_file: Seq<u8>) -> Seq<
    u8,
> {
    root + seq![0x2fu8] + spec_trim_trailing_spaces(directory) + seq![
        0x2fu8,
        0x44u8,
        0x41u8,
        0x54u8,
        0x41u8,
        0x2fu8,
    ] + text_file
}

/// A book: the bytes of its root directory path and its parsed catalog.
#[derive(Debug)]
pub struct Book {
    path: Vec<u8>,
    catalog: catalog::Catalog,
}

impl Book {
    /// The bytes of the root directory path.
    pub closed spec fn spec_path(&self) -> Seq<u8> {
        self.path@
    }

    /// The format version of the catalog.
    pub closed spec fn spec_version(&self) -> u16 {
        self.catalog.epwing_version
    }

    /// The subbook descriptors of the catalog.
    pub closed spec fn spec_subbooks(&self) -> Seq<catalog::SubbookModel> {
        self.catalog.subbooks.deep_view()
    }

    /// Builds a book from the bytes of its root directory path and of its
    /// `CATALOGS` file.
    pub fn from_catalog_bytes(path: Vec<u8>, catalog_data: &[u8]) -> (r: Result<Book, Error>)
        ensures
            (match r {
                Ok(b) => catalog::spec_parse_catalog(catalog_data@) == Ok::<_, Error>(
                    (b.spec_version(), b.spec_subbooks()),
                ) && b.spec_path() == path@,
                Err(e) => catalog::spec_parse_catalog(catalog_data@) == Err::<
                    (u16, Seq<catalog::SubbookModel>),
                    _,
                >(e),
            }),
    {
        let parsed = match catalog::Catalog::from_stream(catalog_data) {
            Ok(c) => c,
            Err(e) => {
                return Err(e);
            },
        };
        Ok(Book { path, catalog: parsed })
    }

    /// The subbooks listed by the catalog.
    pub fn subbooks(&self) -> (r: &Vec<catalog::Subbook>)
        ensures
            r.deep_view() == self.spec_subbooks(),
    {
        &self.catalog.subbooks
    }

    /// The path of a subbook's data file: the book root, the directory
    /// name with its space padding trimmed, `DATA`, and the data file
    /// name.  A directory name that is all spaces is malformed.
    pub fn subbook_path(&self, subbook: &catalog::Subbook) -> (r: Result<Vec<u8>, Error>)
        ensures
            (match r {
                Ok(p) => spec_trim_trailing_spaces(subbook.directory@).len() > 0 && p@
                    == spec_subbook_path(self.spec_path(), subbook.directory@, subbook.text_file@),
                Err(e) => e == Error::InvalidFormat && spec_trim_trailing_spaces(
                    subbook.directory@,
                ).len() == 0,
            }),
    {
        let dir = &subbook.directory;
        let mut end = dir.len();
        proof {
            assert(dir@.take(end as int) =~= dir@);
        }
        while end > 0 && dir[end - 1] == 0x20
            invariant
                end <= dir@.len(),
                spec_trim_trailing_spaces(dir@) == spec_trim_trailing_spaces(
                    dir@.take(end as int),
                ),
            decreases end,
        {
            proof {
                assert(dir@.take(end as int).drop_last() =~= dir@.take(end - 1));
            }
            end = end - 1;
        }
        if end == 0 {
            proof {
                assert(dir@.take(0) =~= Seq::<u8>::empty());
            }
            return Err(Error::InvalidFormat);
        }
        let mut p: Vec<u8> = Vec::new();
        p.extend_from_slice(self.path.as_slice());
        p.push(0x2f);
        p.extend_from_slice(slice_subrange(dir.as_slice(), 0, end));
        p.push(0x2f);
        p.push(0x44);
        p.push(0x41);
        p.push(0x54);
        p.push(0x41);
        p.push(0x2f);
        p.extend_from_slice(subbook.text_file.as_slice());
        proof {
            assert(spec_trim_trailing_spaces(dir@.take(end as int)) =~= dir@.take(end as int));
            assert(p@ =~= spec_subbook_path(self.path@, dir@, subbook.text_file@));
        }
        Ok(p)
    }
}

} // verus!
