//! Composition of multi-file markdown documents.
//!
//! A document is assembled from an entry file and the files it imports,
//! its inline annotation tags are expanded into markup, and the code blocks
//! that hold diagrams are replaced by rendered markup.  The functions of
//! this library are verified against their contracts; the few that call
//! `std::path`, `path_absolutize` and `url` only name what those give, and
//! their contracts are believed.  Reading files and running the renderer of
//! diagrams are left to the caller, which is told what to do next and hands
//! back what it got; parsing the composed document and writing it as markup
//! are the caller's too.
//!
//! - `annotations`: the expansion of the tags of a line.
//! - `md_compiler`: the composition of a document, step by step.
//! - `composed`: the composed document as a function of the files, and the
//!   proof that the composition comes to it.
//! - `diagrams`: the tree of the parsed document and the walk over it.
//! - `html_generation`: the template.
//! - `project_builder`: a project and the paths that building it uses.
//! - `file_utils`, `pdf_exporter`: paths and addresses, as text.
//! - `text`: characters, search and lines.
//! - `error`: the failures.

pub mod annotations;
pub mod composed;
pub mod diagrams;
pub mod error;
pub mod file_utils;
pub mod html_generation;
pub mod md_compiler;
pub mod pdf_exporter;
pub mod project_builder;
pub mod text;
