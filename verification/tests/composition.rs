use thener::error::CompileError;
use thener::md_compiler::{MarkdownPreprocessor, Progress};

/// Runs a composition to its end over the files given, and notes the paths
/// that were read, in order.
fn compose(
    base: &str,
    name: &str,
    files: &[(&str, &str)],
) -> (Result<String, CompileError>, Vec<String>) {
    let mut read = Vec::new();
    let code = files.iter().find(|(path, _)| *path == name).map(|(_, text)| *text).unwrap_or("");
    let mut progress = MarkdownPreprocessor::new().preprocess_markdown(base, name, code);
    loop {
        match progress {
            Progress::Composed(text) => return (Ok(text), read),
            Progress::Failed(error) => return (Err(error), read),
            Progress::Reading(composition) => {
                let path = composition.wanted().to_string();
                let contents = files.iter().find(|(p, _)| *p == path).map(|(_, text)| *text);
                read.push(path);
                progress = composition.supply(contents);
            },
        }
    }
}

/// Composes the entry document of a chain of `length` documents, each of
/// which imports the next.
fn compose_chain(length: usize) -> Result<String, CompileError> {
    let mut progress =
        MarkdownPreprocessor::new().preprocess_markdown("/chain", "start.md", "@import d1");
    let mut depth = 0;
    loop {
        match progress {
            Progress::Composed(text) => return Ok(text),
            Progress::Failed(error) => return Err(error),
            Progress::Reading(composition) => {
                depth += 1;
                assert_eq!(composition.wanted(), format!("/chain/d{}.md", depth));
                let text = if depth < length {
                    format!("@import d{}", depth + 1)
                } else {
                    "the end".to_string()
                };
                progress = composition.supply(Some(&text));
            },
        }
    }
}

#[test]
fn a_document_without_imports_is_wrapped_in_one_pair_of_markers() {
    let (composed, read) = compose(
        "/work",
        "start.md",
        &[("start.md", "# Title\n@#intro Some text @.highlight here @// note\n\nlast")],
    );
    assert_eq!(
        composed,
        Ok("<!-- Importado del archivo start.md -->\n# Title\n<span id='intro'></span> Some text <span class='highlight'></span> here \n\nlast\n<!-- fin del archivo start.md -->".to_string())
    );
    assert!(read.is_empty());
}

#[test]
fn an_empty_document_is_its_two_markers() {
    let (composed, _) = compose("/work", "empty.md", &[("empty.md", "")]);
    assert_eq!(
        composed,
        Ok("<!-- Importado del archivo empty.md -->\n<!-- fin del archivo empty.md -->".to_string())
    );
}

#[test]
fn the_markers_name_the_last_component_of_the_path() {
    let (composed, _) = compose("/work", "docs/deep/start.md", &[("docs/deep/start.md", "x")]);
    assert_eq!(
        composed,
        Ok("<!-- Importado del archivo start.md -->\nx\n<!-- fin del archivo start.md -->".to_string())
    );
}

#[test]
fn an_import_is_replaced_by_the_composition_of_the_document() {
    let (composed, read) = compose(
        "/work",
        "start.md",
        &[
            ("start.md", "before\n@import part\nafter @#a"),
            ("/work/part.md", "inside @.b\n@// gone"),
        ],
    );
    assert_eq!(
        composed,
        Ok([
            "<!-- Importado del archivo start.md -->",
            "before",
            "<!-- Importado del archivo part.md -->",
            "inside <span class='b'></span>",
            "",
            "<!-- fin del archivo part.md -->",
            "after <span id='a'></span>",
            "<!-- fin del archivo start.md -->",
        ]
        .join("\n"))
    );
    assert_eq!(read, vec!["/work/part.md"]);
}

#[test]
fn imports_are_composed_depth_first_in_the_order_of_the_lines() {
    let (composed, read) = compose(
        "/w",
        "start.md",
        &[
            ("start.md", "@import a\n@import b"),
            ("/w/a.md", "a1\n@import c\na2"),
            ("/w/b.md", "b1"),
            ("/w/c.md", "c1"),
        ],
    );
    assert_eq!(
        composed,
        Ok([
            "<!-- Importado del archivo start.md -->",
            "<!-- Importado del archivo a.md -->",
            "a1",
            "<!-- Importado del archivo c.md -->",
            "c1",
            "<!-- fin del archivo c.md -->",
            "a2",
            "<!-- fin del archivo a.md -->",
            "<!-- Importado del archivo b.md -->",
            "b1",
            "<!-- fin del archivo b.md -->",
            "<!-- fin del archivo start.md -->",
        ]
        .join("\n"))
    );
    assert_eq!(read, vec!["/w/a.md", "/w/c.md", "/w/b.md"]);
}

#[test]
fn an_import_is_taken_from_the_directory_of_the_importing_document() {
    let (composed, read) = compose(
        "",
        "docs/start.md",
        &[
            ("docs/start.md", "@import sections/one"),
            ("docs/sections/one.md", "@import two\n@import ../three"),
            ("docs/sections/two.md", "2"),
            ("docs/three.md", "3"),
        ],
    );
    assert!(composed.is_ok());
    assert_eq!(read, vec!["docs/sections/one.md", "docs/sections/two.md", "docs/three.md"]);
}

#[test]
fn a_relative_import_becomes_absolute_from_the_base() {
    let (_, read) = compose(
        "/work",
        "docs/start.md",
        &[
            ("docs/start.md", "@import sections/one"),
            ("/work/docs/sections/one.md", "@import ./two\n@import ../../top"),
            ("/work/docs/sections/two.md", "2"),
            ("/work/top.md", "3"),
        ],
    );
    assert_eq!(
        read,
        vec!["/work/docs/sections/one.md", "/work/docs/sections/two.md", "/work/top.md"]
    );
}

#[test]
fn an_absolute_import_stands_as_it_is() {
    let (composed, read) = compose(
        "/work",
        "start.md",
        &[("start.md", "@import /else/where/../x"), ("/else/where/../x.md", "@import y"), ("/else/where/../y.md", "y")],
    );
    assert!(composed.is_ok());
    assert_eq!(read, vec!["/else/where/../x.md", "/else/where/../y.md"]);
}

#[test]
fn the_extension_of_an_import_is_replaced() {
    let (_, read) = compose(
        "/w",
        "start.md",
        &[("start.md", "@import a.txt\n@import b.tar.gz\n@import c"), ("/w/a.md", ""), ("/w/b.tar.md", ""), ("/w/c.md", "")],
    );
    assert_eq!(read, vec!["/w/a.md", "/w/b.tar.md", "/w/c.md"]);
}

#[test]
fn a_document_that_is_imported_twice_is_read_twice() {
    let (composed, read) = compose(
        "/w",
        "start.md",
        &[("start.md", "@import a\n@import a"), ("/w/a.md", "x")],
    );
    assert_eq!(read, vec!["/w/a.md", "/w/a.md"]);
    assert_eq!(
        composed,
        Ok([
            "<!-- Importado del archivo start.md -->",
            "<!-- Importado del archivo a.md -->",
            "x",
            "<!-- fin del archivo a.md -->",
            "<!-- Importado del archivo a.md -->",
            "x",
            "<!-- fin del archivo a.md -->",
            "<!-- fin del archivo start.md -->",
        ]
        .join("\n"))
    );
}

#[test]
fn only_the_prefix_with_its_space_imports() {
    let (composed, read) = compose(
        "/w",
        "start.md",
        &[("start.md", "@importa\n @import a\n@import"), ("/w/a.md", "x")],
    );
    assert!(read.is_empty());
    assert_eq!(
        composed,
        Ok("<!-- Importado del archivo start.md -->\n@importa\n @import a\n@import\n<!-- fin del archivo start.md -->".to_string())
    );
}

#[test]
fn the_lines_of_an_imported_document_are_not_split_again() {
    let (composed, _) = compose(
        "/w",
        "start.md",
        &[("start.md", "@import a\r\nend\r\n"), ("/w/a.md", "x\r\r\ny\r")],
    );
    assert_eq!(
        composed,
        Ok([
            "<!-- Importado del archivo start.md -->",
            "<!-- Importado del archivo a.md -->",
            "x\r",
            "y\r",
            "<!-- fin del archivo a.md -->",
            "end",
            "<!-- fin del archivo start.md -->",
        ]
        .join("\n"))
    );
}

#[test]
fn a_document_that_cannot_be_read_fails_the_composition() {
    let (composed, read) = compose(
        "/w",
        "start.md",
        &[("start.md", "a\n@import missing\n@import b"), ("/w/b.md", "b")],
    );
    assert_eq!(composed, Err(CompileError::FileReadError));
    assert_eq!(read, vec!["/w/missing.md"]);
}

#[test]
fn a_path_without_a_last_component_is_no_document() {
    for name in ["..", "docs/..", "/", ""] {
        let (composed, _) = compose("/w", name, &[]);
        assert_eq!(composed, Err(CompileError::FileReadError), "{:?}", name);
    }
}

#[test]
fn a_chain_of_99_imports_is_composed() {
    let composed = compose_chain(99).unwrap();
    let lines: Vec<&str> = composed.lines().collect();
    assert_eq!(lines.len(), 2 * 100 + 1);
    assert_eq!(lines[0], "<!-- Importado del archivo start.md -->");
    assert_eq!(lines[99], "<!-- Importado del archivo d99.md -->");
    assert_eq!(lines[100], "the end");
    assert_eq!(lines[101], "<!-- fin del archivo d99.md -->");
    assert_eq!(lines[200], "<!-- fin del archivo start.md -->");
}

#[test]
fn a_chain_of_100_imports_exceeds_the_depth() {
    assert_eq!(compose_chain(100), Err(CompileError::ImportDepthExceeded));
    assert_eq!(compose_chain(101), Err(CompileError::ImportDepthExceeded));
}

#[test]
fn an_import_that_imports_itself_exceeds_the_depth() {
    let (composed, read) =
        compose("/w", "start.md", &[("start.md", "@import a"), ("/w/a.md", "@import a")]);
    assert_eq!(composed, Err(CompileError::ImportDepthExceeded));
    assert_eq!(read.len(), 100);
}
