//! The ways in which composing a document can fail.

use vstd::prelude::*;

verus! {

/// Why a document could not be composed.  Each of these ends the whole
/// composition: nothing is produced from a part of the documents.
#[derive(Clone, Copy, Debug, PartialEq, Eq, Structural)]
pub enum CompileError {
    /// Imports are nested deeper than the limit allows.
    ImportDepthExceeded,
    /// An imported document is missing or cannot be read.
    FileReadError,
    /// The directory that holds a document cannot be determined.
    DirectoryResolutionError,
    /// A path that was resolved cannot be written as text.
    PathEncodingError,
    /// The renderer of diagrams failed, or gave nothing that can be read.
    RenderError,
}

impl CompileError {
    /// The name of the error, as text.
    pub open spec fn name(self) -> Seq<char> {
        match self {
            CompileError::ImportDepthExceeded => "ImportDepthExceeded"@,
            CompileError::FileReadError => "FileReadError"@,
            CompileError::DirectoryResolutionError => "DirectoryResolutionError"@,
            CompileError::PathEncodingError => "PathEncodingError"@,
            CompileError::RenderError => "RenderError"@,
        }
    }

    /// The name of the error.
    pub fn to_str(&self) -> (s: &'static str)
        ensures
            s@ == self.name(),
    {
        match self {
            CompileError::ImportDepthExceeded => "ImportDepthExceeded",
            CompileError::FileReadError => "FileReadError",
            CompileError::DirectoryResolutionError => "DirectoryResolutionError",
            CompileError::PathEncodingError => "PathEncodingError",
            CompileError::RenderError => "RenderError",
        }
    }
}

} // verus!
