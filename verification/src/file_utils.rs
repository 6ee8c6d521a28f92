//! Paths as text.  What `std::path` and `path_absolutize` compute of a path
//! is not proved here: each of their results has a name, and the functions
//! of this library say what they do with them.

use crate::error::CompileError;
use vstd::prelude::*;

verus! {

/// The text of `o`, where it holds one.
pub open spec fn option_text(o: Option<String>) -> Option<Seq<char>> {
    match o {
        Some(s) => Some(s@),
        None => None,
    }
}

/// The last component of `path` as `std::path::Path::file_name` gives it,
/// as text; `None` where it gives none.
pub uninterp spec fn path_file_name(path: Seq<char>) -> Option<Seq<char>>;

/// `path` without its last component as `std::path::Path::parent` gives it,
/// as text; `None` where it gives none.
pub uninterp spec fn path_parent(path: Seq<char>) -> Option<Seq<char>>;

/// Whether `std::path::Path::is_relative` holds of `path`.
pub uninterp spec fn path_is_relative(path: Seq<char>) -> bool;

/// `path` put behind `base` as `std::path::Path::join` does it, as text;
/// `None` where the result is no text.
pub uninterp spec fn path_join(base: Seq<char>, path: Seq<char>) -> Option<Seq<char>>;

/// `path` after `std::path::PathBuf::set_extension` has set its extension
/// to `extension`, as text; `None` where the result is no text.
pub uninterp spec fn path_with_extension(path: Seq<char>, extension: Seq<char>) -> Option<
    Seq<char>,
>;

/// The absolute form of `path` that `Absolutize::absolutize_from` of
/// `path_absolutize` gives when `cwd` is taken as the working directory, as
/// text; `None` where the result is no text.
pub uninterp spec fn path_absolutize_from(path: Seq<char>, cwd: Seq<char>) -> Option<Seq<char>>;

/// `std::path::Path::file_name`: the last component of `path`, as text.
/// The contract names the result and claims nothing else of it.
#[verifier::external_body]
pub(crate) fn file_name_of(path: &str) -> (r: Option<String>)
    ensures
        option_text(r) == path_file_name(path@),
{
    std::path::Path::new(path).file_name().and_then(|n| n.to_str()).map(|n| n.to_string())
}

/// `std::path::Path::parent`: `path` without its last component, as text.
/// The contract names the result and claims nothing else of it.
#[verifier::external_body]
pub(crate) fn parent_of(path: &str) -> (r: Option<String>)
    ensures
        option_text(r) == path_parent(path@),
{
    std::path::Path::new(path).parent().and_then(|p| p.to_str()).map(|p| p.to_string())
}

/// `std::path::Path::is_relative`.  The contract names the result and
/// claims nothing else of it.
#[verifier::external_body]
pub(crate) fn is_relative(path: &str) -> (r: bool)
    ensures
        r == path_is_relative(path@),
{
    std::path::Path::new(path).is_relative()
}

/// `std::path::Path::join`: `path` put behind `base`, as text.  The
/// contract names the result and claims nothing else of it.
#[verifier::external_body]
pub(crate) fn join_paths(base: &str, path: &str) -> (r: Option<String>)
    ensures
        option_text(r) == path_join(base@, path@),
{
    std::path::Path::new(base).join(path).to_str().map(|p| p.to_string())
}

/// `std::path::PathBuf::set_extension`: `path` with `extension` as its
/// extension, as text.  It panics on an extension that holds a path
/// separator, which is left out here.  The contract names the result and
/// claims nothing else of it.
#[verifier::external_body]
pub(crate) fn with_extension(path: &str, extension: &str) -> (r: Option<String>)
    requires
        forall|i: int|
            0 <= i < extension@.len() ==> extension@[i] != '/' && extension@[i] != '\\',
    ensures
        option_text(r) == path_with_extension(path@, extension@),
{
    let mut changed = std::path::PathBuf::from(path);
    changed.set_extension(extension);
    changed.to_str().map(|p| p.to_string())
}

/// `Absolutize::absolutize_from` of `path_absolutize`: the absolute form
/// of `path` with `cwd` taken as the working directory, as text.  It reads
/// nothing but its two arguments.  The contract names the result and claims
/// nothing else of it.
#[verifier::external_body]
pub(crate) fn absolutize_from(path: &str, cwd: &str) -> (r: Option<String>)
    ensures
        option_text(r) == path_absolutize_from(path@, cwd@),
{
    path_absolutize::Absolutize::absolutize_from(
        std::path::Path::new(path),
        std::path::Path::new(cwd),
    ).to_str().map(|p| p.to_string())
}

/// `Absolutize::absolutize` of `path_absolutize`: the absolute form of
/// `path`, as text, or no text where it cannot be written as such.  For a
/// relative path it depends on the working directory of the process, and
/// fails where that cannot be had: nothing is claimed of that case.  For an
/// absolute path it is `absolutize_from` with an empty working directory.
#[verifier::external_body]
fn absolutize(path: &str) -> (r: Result<Option<String>, ()>)
    ensures
        !path_is_relative(path@) ==> r is Ok && option_text(r->Ok_0) == path_absolutize_from(
            path@,
            Seq::empty(),
        ),
{
    match path_absolutize::Absolutize::absolutize(std::path::Path::new(path)) {
        Ok(found) => Ok(found.to_str().map(|p| p.to_string())),
        Err(_) => Err(()),
    }
}

/// What becomes of an absolute form that was looked for: the text where
/// there is one, `PathEncodingError` where the path is no text, and
/// `DirectoryResolutionError` where the working directory could not be had.
pub open spec fn absolute_result(found: Result<Option<Seq<char>>, ()>) -> Result<
    Seq<char>,
    CompileError,
> {
    match found {
        Ok(Some(p)) => Ok(p),
        Ok(None) => Err(CompileError::PathEncodingError),
        Err(_) => Err(CompileError::DirectoryResolutionError),
    }
}

/// The text of a result that holds one.
pub open spec fn result_text(r: Result<String, CompileError>) -> Result<Seq<char>, CompileError> {
    match r {
        Ok(s) => Ok(s@),
        Err(e) => Err(e),
    }
}

/// Turns the absolute form that was looked for into the caller's result.
pub fn absolute_outcome(found: Result<Option<String>, ()>) -> (r: Result<String, CompileError>)
    ensures
        result_text(r) == absolute_result(
            match found {
                Ok(o) => Ok(option_text(o)),
                Err(e) => Err(e),
            },
        ),
{
    match found {
        Ok(Some(p)) => Ok(p),
        Ok(None) => Err(CompileError::PathEncodingError),
        Err(_) => Err(CompileError::DirectoryResolutionError),
    }
}

/// The absolute form of `path_name`.  For an absolute path the result is
/// fixed by the path alone; for a relative one it depends on the working
/// directory of the process.
pub fn try_absolute(path_name: &str) -> (r: Result<String, CompileError>)
    ensures
        !path_is_relative(path_name@) ==> result_text(r) == absolute_result(
            Ok(path_absolutize_from(path_name@, Seq::empty())),
        ),
        r matches Err(e) ==> e == CompileError::PathEncodingError || e
            == CompileError::DirectoryResolutionError,
{
    absolute_outcome(absolutize(path_name))
}

/// The absolute form of `path_name` taken from `base_path`.
pub fn try_absolute_based_on_path(base_path: &str, path_name: &str) -> (r: Result<
    String,
    CompileError,
>)
    ensures
        path_join(base_path@, path_name@) is None ==> r == Err::<String, CompileError>(
            CompileError::PathEncodingError,
        ),
        path_join(base_path@, path_name@) matches Some(joined) ==> (!path_is_relative(joined)
            ==> result_text(r) == absolute_result(Ok(path_absolutize_from(joined, Seq::empty())))),
        r matches Err(e) ==> e == CompileError::PathEncodingError || e
            == CompileError::DirectoryResolutionError,
{
    match join_paths(base_path, path_name) {
        Some(joined) => try_absolute(joined.as_str()),
        None => Err(CompileError::PathEncodingError),
    }
}

} // verus!
