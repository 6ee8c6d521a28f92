use thener::error::CompileError;
use thener::file_utils::{absolute_outcome, try_absolute, try_absolute_based_on_path};
use thener::pdf_exporter::{html_address, Error};

#[test]
fn an_absolute_path_loses_its_dots() {
    assert_eq!(try_absolute("/path/to/./123/../456"), Ok("/path/to/456".to_string()));
    assert_eq!(try_absolute("/path/to/123/456"), Ok("/path/to/123/456".to_string()));
    assert_eq!(try_absolute("/../a"), Ok("/a".to_string()));
}

#[test]
fn a_relative_path_becomes_absolute() {
    for path in ["some/x/../file.md", "./some/file.md", "some/./file.md"] {
        let absolute = try_absolute(path).unwrap();
        assert!(absolute.starts_with('/'), "{:?}", absolute);
        assert!(absolute.ends_with("/some/file.md"), "{:?}", absolute);
        assert!(!absolute.contains("/./") && !absolute.contains("/../"), "{:?}", absolute);
    }
    assert_eq!(try_absolute("a/b"), try_absolute_based_on_path(".", "a/c/../b"));
}

#[test]
fn a_path_is_taken_from_its_base() {
    assert_eq!(
        try_absolute_based_on_path("/base/dir", "x/../y.md"),
        Ok("/base/dir/y.md".to_string())
    );
    assert_eq!(try_absolute_based_on_path("/base/dir", "/other/./z"), Ok("/other/z".to_string()));
    assert_eq!(try_absolute_based_on_path("/base/dir", ".."), Ok("/base".to_string()));
}

#[test]
fn the_outcome_of_making_a_path_absolute() {
    assert_eq!(absolute_outcome(Ok(Some("/a".to_string()))), Ok("/a".to_string()));
    assert_eq!(absolute_outcome(Ok(None)), Err(CompileError::PathEncodingError));
    assert_eq!(absolute_outcome(Err(())), Err(CompileError::DirectoryResolutionError));
}

#[test]
fn errors_have_their_names() {
    assert_eq!(CompileError::ImportDepthExceeded.to_str(), "ImportDepthExceeded");
    assert_eq!(CompileError::FileReadError.to_str(), "FileReadError");
    assert_eq!(CompileError::DirectoryResolutionError.to_str(), "DirectoryResolutionError");
    assert_eq!(CompileError::PathEncodingError.to_str(), "PathEncodingError");
    assert_eq!(CompileError::RenderError.to_str(), "RenderError");
}

#[test]
fn an_absolute_path_has_an_address() {
    assert_eq!(html_address("/build/html/index.html"), Ok("file:///build/html/index.html".to_string()));
    assert_eq!(html_address("/my docs/a#b.html"), Ok("file:///my%20docs/a%23b.html".to_string()));
}

#[test]
fn a_relative_path_has_no_address() {
    assert_eq!(html_address("build/index.html"), Err(Error::InvalidPath));
    assert_eq!(html_address(""), Err(Error::InvalidPath));
    assert_eq!(Error::InvalidPath.to_str(), "Invalid path");
}
