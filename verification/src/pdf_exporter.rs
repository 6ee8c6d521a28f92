//! The address under which the browser that prints the document finds it.

use vstd::prelude::*;

verus! {

/// Why a document could not be handed to the browser.
#[derive(Clone, Copy, Debug, PartialEq, Eq, Structural)]
pub enum Error {
    /// The path of the document has no address in the `file` scheme.
    InvalidPath,
}

impl Error {
    /// What the error says.
    pub fn to_str(&self) -> (s: &'static str)
        ensures
            s@ == "Invalid path"@,
    {
        match self {
            Error::InvalidPath => "Invalid path",
        }
    }
}

/// The address in the `file` scheme that `url::Url::from_file_path` gives
/// for `path`, and `None` where it gives none.
pub uninterp spec fn path_file_url(path: Seq<char>) -> Option<Seq<char>>;

/// The address of `path`, where it has one.
pub open spec fn address_of(path: Seq<char>) -> Result<Seq<char>, Error> {
    match path_file_url(path) {
        Some(url) => Ok(url),
        None => Err(Error::InvalidPath),
    }
}

/// `url::Url::from_file_path`: the address of the file at `path` in the
/// `file` scheme, as text, and `None` where the path has none (it is not
/// absolute).  The contract names the result and claims nothing else of it.
#[verifier::external_body]
fn file_url(path: &str) -> (r: Option<String>)
    ensures
        match r {
            Some(url) => path_file_url(path@) == Some(url@),
            None => path_file_url(path@) is None,
        },
{
    url::Url::from_file_path(std::path::Path::new(path)).ok().map(|address| address.as_str().to_string())
}

/// The address to which the browser is sent for the document at
/// `html_path`.
pub fn html_address(html_path: &str) -> (r: Result<String, Error>)
    ensures
        match r {
            Ok(url) => address_of(html_path@) == Ok::<Seq<char>, Error>(url@),
            Err(e) => address_of(html_path@) == Err::<Seq<char>, Error>(e),
        },
{
    match file_url(html_path) {
        Some(url) => Ok(url),
        None => Err(Error::InvalidPath),
    }
}

} // verus!
