//! Composition of a document from the files it imports.
//!
//! A line that begins with `@import ` names another document, relative to
//! the directory of the document that holds the line.  The composed document
//! has the named document's own composition in place of that line, and every
//! other line with its annotations expanded, between two marker lines that
//! name the file.  Reading a file is the caller's part: the composition
//! stops with the path it wants, and goes on when it is handed the contents.

use crate::annotations::{expand_line, expand_line_in, expand_tags, expand_tags_in, TagKind};
use crate::error::CompileError;
use crate::file_utils::{
    absolutize_from, file_name_of, is_relative, join_paths, option_text, parent_of,
    path_absolutize_from, path_file_name, path_is_relative, path_join, path_parent,
    path_with_extension, with_extension,
};
use crate::text::{
    append, from_chars, join, join_lines, lines, matches_at, occurs_at, slice, split_lines, texts,
    to_chars,
};
use vstd::prelude::*;

verus! {

/// The characters with which a line that imports a document begins.
pub open spec fn import_prefix() -> Seq<char> {
    "@import "@
}

/// Whether `line` imports a document.
pub open spec fn is_import(line: Seq<char>) -> bool {
    occurs_at(line, import_prefix(), 0)
}

/// What the importing line `line` names: all that follows the prefix.
pub open spec fn import_target(line: Seq<char>) -> Seq<char> {
    line.skip(import_prefix().len() as int)
}

/// The line that stands before the composition of the file `name`.
pub open spec fn opening_marker(name: Seq<char>) -> Seq<char> {
    "<!-- Importado del archivo "@ + name + " -->"@
}

/// The line that stands behind the composition of the file `name`.
pub open spec fn closing_marker(name: Seq<char>) -> Seq<char> {
    "<!-- fin del archivo "@ + name + " -->"@
}

/// Each line of `ls` with its annotations expanded.
pub open spec fn expand_lines(ls: Seq<Seq<char>>) -> Seq<Seq<char>> {
    Seq::new(ls.len(), |i: int| expand_line(ls[i]))
}

/// The index of the first importing line of `ls` at or after `from`, or
/// the length of `ls` where there is none.
pub open spec fn first_import(ls: Seq<Seq<char>>, from: int) -> int
    decreases ls.len() - from,
{
    if from < 0 || from >= ls.len() {
        ls.len() as int
    } else if is_import(ls[from]) {
        from
    } else {
        first_import(ls, from + 1)
    }
}

/// The path of the document that `target` names in a document whose
/// directory is `base`: a relative target is taken from `base` and made
/// absolute, an absolute one stands as it is, and either gets the extension
/// `md`.  `None` where a path on the way is no text.
pub open spec fn import_path(base: Seq<char>, target: Seq<char>) -> Option<Seq<char>> {
    let found = if path_is_relative(target) {
        match path_join("."@, target) {
            Some(joined) => path_absolutize_from(joined, base),
            None => None,
        }
    } else {
        Some(target)
    };
    match found {
        Some(path) => path_with_extension(path, "md"@),
        None => None,
    }
}

/// A document that is being composed.
pub struct FrameModel {
    /// The last component of the document's path, which the markers name.
    pub name: Seq<char>,
    /// The directory from which the document's imports are taken.
    pub base: Seq<char>,
    /// The lines of the document.
    pub lines: Seq<Seq<char>>,
    /// How many of the lines are done.
    pub next: int,
    /// What the lines that are done have become.
    pub out: Seq<Seq<char>>,
}

/// A composition that is under way.
pub struct CompositionModel {
    /// The documents that are being composed: the entry document first, and
    /// behind each document the one whose import it waits for.
    pub frames: Seq<FrameModel>,
    /// The path of the document that is to be read next.
    pub wanted: Seq<char>,
    /// The depth of imports that is no longer allowed.
    pub limit: nat,
}

/// Where a composition stands when it hands control back.
pub enum Step {
    /// The document at `wanted` is to be read.
    Reading(CompositionModel),
    /// The composed document.
    Composed(Seq<char>),
    /// The composition failed.
    Failed(CompileError),
}

/// The document at `path` with the contents `text`, as it stands before its
/// first line is done, when `base` is the directory in use.  Its imports
/// are taken from the directory of `path`, and from `base` where `path`
/// names no directory.  The path of the entry document is read from `base`;
/// that of an imported one was `resolved` from it before.
pub open spec fn open_document(
    base: Seq<char>,
    path: Seq<char>,
    text: Seq<char>,
    resolved: bool,
) -> Result<FrameModel, CompileError> {
    match path_file_name(path) {
        None => Err(CompileError::FileReadError),
        Some(name) => match path_parent(path) {
            None => Err(CompileError::DirectoryResolutionError),
            Some(parent) => {
                let dir = if parent.len() == 0 {
                    Some(base)
                } else if resolved {
                    Some(parent)
                } else {
                    path_join(base, parent)
                };
                match dir {
                    None => Err(CompileError::PathEncodingError),
                    Some(dir) => Ok(
                        FrameModel {
                            name,
                            base: dir,
                            lines: lines(text),
                            next: 0,
                            out: Seq::empty(),
                        },
                    ),
                }
            },
        },
    }
}

/// How the composition `c` goes on from where its innermost document
/// stands.  The lines up to the next import are expanded.  At an import the
/// composition stops and wants the imported document.  At the end of a
/// document its lines, between its two markers, are the composed document
/// if it is the entry document; else they take the place of the import in
/// the document that waited, which then goes on.
pub open spec fn proceed(c: CompositionModel) -> Step
    decreases c.frames.len(),
{
    let top = c.frames.last();
    let k = first_import(top.lines, top.next);
    let out = top.out + expand_lines(top.lines.subrange(top.next, k));
    if k < top.lines.len() {
        match import_path(top.base, import_target(top.lines[k])) {
            Some(path) => Step::Reading(
                CompositionModel {
                    frames: c.frames.drop_last().push(FrameModel { next: k + 1, out, ..top }),
                    wanted: path,
                    limit: c.limit,
                },
            ),
            None => Step::Failed(CompileError::PathEncodingError),
        }
    } else {
        let whole = seq![opening_marker(top.name)] + out + seq![closing_marker(top.name)];
        if c.frames.len() <= 1 {
            Step::Composed(join_lines(whole))
        } else {
            let below = c.frames.drop_last();
            let parent = below.last();
            proceed(
                CompositionModel {
                    frames: below.drop_last().push(
                        FrameModel { out: parent.out + whole, ..parent },
                    ),
                    wanted: c.wanted,
                    limit: c.limit,
                },
            )
        }
    }
}

/// How the composition `c` goes on when it is told what came of reading the
/// document it wanted: `None` where it could not be read.  The document is
/// refused where as many documents are being composed as the limit says.
pub open spec fn supply(c: CompositionModel, contents: Option<Seq<char>>) -> Step {
    match contents {
        None => Step::Failed(CompileError::FileReadError),
        Some(text) => if c.frames.len() >= c.limit {
            Step::Failed(CompileError::ImportDepthExceeded)
        } else {
            match open_document(c.frames.last().base, c.wanted, text, true) {
                Err(e) => Step::Failed(e),
                Ok(frame) => proceed(
                    CompositionModel {
                        frames: c.frames.push(frame),
                        wanted: c.wanted,
                        limit: c.limit,
                    },
                ),
            }
        },
    }
}

/// How the composition of the document at `name` with the contents `text`
/// begins, when `base` is the directory in use.
pub open spec fn begin(limit: nat, base: Seq<char>, name: Seq<char>, text: Seq<char>) -> Step {
    if limit == 0 {
        Step::Failed(CompileError::ImportDepthExceeded)
    } else {
        match open_document(base, name, text, false) {
            Err(e) => Step::Failed(e),
            Ok(frame) => proceed(
                CompositionModel { frames: seq![frame], wanted: Seq::empty(), limit },
            ),
        }
    }
}

/// `first_import` lies between `from` and the end, and no line before it
/// imports.
pub proof fn lemma_first_import(ls: Seq<Seq<char>>, from: int)
    requires
        0 <= from <= ls.len(),
    ensures
        from <= first_import(ls, from) <= ls.len(),
        forall|j: int| from <= j < first_import(ls, from) ==> !is_import(ls[j]),
        first_import(ls, from) < ls.len() ==> is_import(ls[first_import(ls, from)]),
    decreases ls.len() - from,
{
    if from < ls.len() && !is_import(ls[from]) {
        lemma_first_import(ls, from + 1);
    }
}

/// A document none of whose lines imports is composed at once, with nothing
/// read: the composed document is its lines with their annotations expanded,
/// between one opening and one closing marker that name the document.
pub proof fn lemma_without_imports(limit: nat, base: Seq<char>, name: Seq<char>, text: Seq<char>)
    requires
        forall|i: int| 0 <= i < lines(text).len() ==> !is_import(#[trigger] lines(text)[i]),
    ensures
        begin(limit, base, name, text) == if limit == 0 {
            Step::Failed(CompileError::ImportDepthExceeded)
        } else {
            match open_document(base, name, text, false) {
                Err(e) => Step::Failed(e),
                Ok(frame) => Step::Composed(
                    join_lines(
                        seq![opening_marker(frame.name)] + expand_lines(lines(text))
                            + seq![closing_marker(frame.name)],
                    ),
                ),
            }
        },
{
    if limit > 0 {
        if let Ok(frame) = open_document(base, name, text, false) {
            let ls = lines(text);
            lemma_first_import(ls, 0);
            assert(first_import(ls, 0) == ls.len());
            assert(frame.lines == ls && frame.next == 0 && frame.out == Seq::<Seq<char>>::empty());
            assert(ls.subrange(0, ls.len() as int) =~= ls);
            assert(frame.out + expand_lines(ls) =~= expand_lines(ls));
            let c = CompositionModel { frames: seq![frame], wanted: Seq::empty(), limit };
            assert(c.frames.last() == frame);
        }
    }
}

/// Going on never fails for the depth of imports.
pub proof fn lemma_proceed_keeps_depth(c: CompositionModel)
    ensures
        proceed(c) != Step::Failed(CompileError::ImportDepthExceeded),
    decreases c.frames.len(),
{
    let top = c.frames.last();
    let k = first_import(top.lines, top.next);
    if k >= top.lines.len() && c.frames.len() > 1 {
        let out = top.out + expand_lines(top.lines.subrange(top.next, k));
        let whole = seq![opening_marker(top.name)] + out + seq![closing_marker(top.name)];
        let below = c.frames.drop_last();
        let parent = below.last();
        lemma_proceed_keeps_depth(
            CompositionModel {
                frames: below.drop_last().push(FrameModel { out: parent.out + whole, ..parent }),
                wanted: c.wanted,
                limit: c.limit,
            },
        );
    }
}

/// A document that was read is refused for the depth of its import exactly
/// where as many documents are being composed as the limit says: with the
/// limit 100, the import at depth 100 fails and the one at depth 99 does
/// not.
pub proof fn lemma_import_depth(c: CompositionModel, text: Seq<char>)
    ensures
        supply(c, Some(text)) == Step::Failed(CompileError::ImportDepthExceeded) <==> c.frames.len()
            >= c.limit,
{
    if c.frames.len() < c.limit {
        if let Ok(frame) = open_document(c.frames.last().base, c.wanted, text, true) {
            lemma_proceed_keeps_depth(
                CompositionModel {
                    frames: c.frames.push(frame),
                    wanted: c.wanted,
                    limit: c.limit,
                },
            );
        }
    }
}

/// Going on adds no document to those that are being composed.
pub proof fn lemma_proceed_depth(c: CompositionModel)
    requires
        c.frames.len() >= 1,
    ensures
        proceed(c) matches Step::Reading(next) ==> 1 <= next.frames.len() <= c.frames.len()
            && next.limit == c.limit,
    decreases c.frames.len(),
{
    let top = c.frames.last();
    let k = first_import(top.lines, top.next);
    if k >= top.lines.len() && c.frames.len() > 1 {
        let out = top.out + expand_lines(top.lines.subrange(top.next, k));
        let whole = seq![opening_marker(top.name)] + out + seq![closing_marker(top.name)];
        let below = c.frames.drop_last();
        let parent = below.last();
        lemma_proceed_depth(
            CompositionModel {
                frames: below.drop_last().push(FrameModel { out: parent.out + whole, ..parent }),
                wanted: c.wanted,
                limit: c.limit,
            },
        );
    }
}

/// The documents that are being composed are never more than the limit
/// allows: not after the composition has begun, and not after it has gone
/// on with a document that was read.
pub proof fn lemma_depth_within_limit(
    limit: nat,
    base: Seq<char>,
    name: Seq<char>,
    text: Seq<char>,
    c: CompositionModel,
    contents: Option<Seq<char>>,
)
    ensures
        begin(limit, base, name, text) matches Step::Reading(next) ==> next.frames.len() == 1
            && next.frames.len() <= limit && next.limit == limit,
        1 <= c.frames.len() <= c.limit ==> (supply(c, contents) matches Step::Reading(next) ==> 1
            <= next.frames.len() <= c.limit && next.limit == c.limit),
{
    if limit > 0 {
        if let Ok(frame) = open_document(base, name, text, false) {
            lemma_proceed_depth(
                CompositionModel { frames: seq![frame], wanted: Seq::empty(), limit },
            );
        }
    }
    if 1 <= c.frames.len() < c.limit {
        if let Some(text) = contents {
            if let Ok(frame) = open_document(c.frames.last().base, c.wanted, text, true) {
                lemma_proceed_depth(
                    CompositionModel {
                        frames: c.frames.push(frame),
                        wanted: c.wanted,
                        limit: c.limit,
                    },
                );
            }
        }
    }
}

/// A document that is being composed.
struct Frame {
    name: String,
    base: String,
    lines: Vec<Vec<char>>,
    next: usize,
    out: Vec<Vec<char>>,
}

impl View for Frame {
    type V = FrameModel;

    closed spec fn view(&self) -> FrameModel {
        FrameModel {
            name: self.name@,
            base: self.base@,
            lines: texts(self.lines@),
            next: if self.next <= self.lines.len() {
                self.next as int
            } else {
                self.lines.len() as int
            },
            out: texts(self.out@),
        }
    }
}

/// A composition that waits for a document to be read.
pub struct Composition {
    below: Vec<Frame>,
    top: Frame,
    wanted: String,
    limit: u8,
}

impl View for Composition {
    type V = CompositionModel;

    closed spec fn view(&self) -> CompositionModel {
        CompositionModel {
            frames: Seq::new(self.below.len() as nat, |i: int| self.below[i]@).push(self.top@),
            wanted: self.wanted@,
            limit: self.limit as nat,
        }
    }
}

/// Where a composition stands when it hands control back.
pub enum Progress {
    /// A document is to be read: `Composition::wanted` gives its path, and
    /// `Composition::supply` takes its contents.
    Reading(Composition),
    /// The composed document.
    Composed(String),
    /// The composition failed.
    Failed(CompileError),
}

impl View for Progress {
    type V = Step;

    open spec fn view(&self) -> Step {
        match self {
            Progress::Reading(c) => Step::Reading(c@),
            Progress::Composed(s) => Step::Composed(s@),
            Progress::Failed(e) => Step::Failed(*e),
        }
    }
}

/// The path of the document that `target` names in a document whose
/// directory is `base`.
fn resolve_import(base: &str, target: &str) -> (r: Option<String>)
    ensures
        option_text(r) == import_path(base@, target@),
{
    let found = if is_relative(target) {
        match join_paths(".", target) {
            Some(joined) => absolutize_from(joined.as_str(), base),
            None => None,
        }
    } else {
        Some(target.to_owned())
    };
    proof {
        reveal_strlit("md");
    }
    match found {
        Some(path) => with_extension(path.as_str(), "md"),
        None => None,
    }
}

/// The document at `path` with the contents `text`, before its first line
/// is done.
fn open_frame(base: &str, path: &str, text: &str, resolved: bool) -> (r: Result<
    Frame,
    CompileError,
>)
    ensures
        match r {
            Ok(frame) => open_document(base@, path@, text@, resolved) == Ok::<
                FrameModel,
                CompileError,
            >(frame@),
            Err(e) => open_document(base@, path@, text@, resolved) == Err::<
                FrameModel,
                CompileError,
            >(e),
        },
{
    let name = match file_name_of(path) {
        Some(name) => name,
        None => { return Err(CompileError::FileReadError); },
    };
    let parent = match parent_of(path) {
        Some(parent) => parent,
        None => { return Err(CompileError::DirectoryResolutionError); },
    };
    let dir = if parent.as_str().is_empty() {
        base.to_owned()
    } else if resolved {
        parent
    } else {
        match join_paths(base, parent.as_str()) {
            Some(dir) => dir,
            None => { return Err(CompileError::PathEncodingError); },
        }
    };
    let lines = split_lines(&to_chars(text));
    let out: Vec<Vec<char>> = Vec::new();
    let frame = Frame { name, base: dir, lines, next: 0, out };
    proof {
        assert(frame@.out =~= Seq::empty());
    }
    Ok(frame)
}

/// The line that stands before (`opening`) or behind the composition of the
/// file `name`.
fn marker_line(name: &str, opening: bool) -> (r: Vec<char>)
    ensures
        opening ==> r@ == opening_marker(name@),
        !opening ==> r@ == closing_marker(name@),
{
    let mut r = if opening {
        to_chars("<!-- Importado del archivo ")
    } else {
        to_chars("<!-- fin del archivo ")
    };
    append(&mut r, &to_chars(name));
    append(&mut r, &to_chars(" -->"));
    r
}

impl Composition {
    /// The path of the document that is to be read.
    pub fn wanted(&self) -> (path: &str)
        ensures
            path@ == self@.wanted,
    {
        self.wanted.as_str()
    }

    /// Goes on from where the innermost document stands.
    fn proceed(self) -> (r: Progress)
        ensures
            r@ == proceed(self@),
        decreases self.below.len(),
    {
        let ghost start = self@;
        let ghost first = self.top@;
        let Composition { mut below, mut top, wanted, limit } = self;
        let prefix = to_chars("@import ");
        proof {
            lemma_first_import(first.lines, first.next);
        }
        while top.next < top.lines.len() && !matches_at(&top.lines[top.next], &prefix, 0)
            invariant
                prefix@ == import_prefix(),
                top@.name == first.name,
                top@.base == first.base,
                top@.lines == first.lines,
                0 <= first.next <= top@.next <= first.lines.len(),
                top@.next <= first_import(first.lines, first.next),
                first_import(first.lines, first.next) == first_import(first.lines, top@.next),
                top@.out == first.out + expand_lines(
                    first.lines.subrange(first.next, top@.next),
                ),
            decreases top.lines.len() - top.next,
        {
            let ghost before = top@;
            let line = expand_line_in(&top.lines[top.next]);
            top.out.push(line);
            top.next = top.next + 1;
            proof {
                lemma_first_import(first.lines, before.next + 1);
                assert(top@.out =~= before.out.push(expand_line(first.lines[before.next])));
                assert(top@.out =~= first.out + expand_lines(
                    first.lines.subrange(first.next, top@.next),
                ));
            }
        }
        let ghost k = first_import(first.lines, first.next);
        proof {
            lemma_first_import(first.lines, top@.next);
            assert(top@.next == k);
        }
        if top.next < top.lines.len() {
            let target = from_chars(&slice(&top.lines[top.next], prefix.len(), top.lines[top.next].len()));
            let path = resolve_import(top.base.as_str(), target.as_str());
            top.next = top.next + 1;
            match path {
                Some(path) => {
                    let c = Composition { below, top, wanted: path, limit };
                    proof {
                        assert(c@.frames =~= start.frames.drop_last().push(
                            FrameModel {
                                next: k + 1,
                                out: first.out + expand_lines(
                                    first.lines.subrange(first.next, k),
                                ),
                                ..first
                            },
                        ));
                    }
                    Progress::Reading(c)
                },
                None => Progress::Failed(CompileError::PathEncodingError),
            }
        } else {
            let mut whole: Vec<Vec<char>> = Vec::new();
            whole.push(marker_line(top.name.as_str(), true));
            whole.append(&mut top.out);
            whole.push(marker_line(top.name.as_str(), false));
            let ghost composed = seq![opening_marker(first.name)] + (first.out + expand_lines(
                first.lines.subrange(first.next, k),
            )) + seq![closing_marker(first.name)];
            proof {
                assert(texts(whole@) =~= composed);
            }
            match below.pop() {
                None => Progress::Composed(from_chars(&join(&whole))),
                Some(parent) => {
                    let ghost waiting = parent@;
                    let mut parent = parent;
                    parent.out.append(&mut whole);
                    let c = Composition { below, top: parent, wanted, limit };
                    proof {
                        assert(parent@.out =~= waiting.out + composed);
                        assert(c@.frames =~= start.frames.drop_last().drop_last().push(
                            FrameModel { out: waiting.out + composed, ..waiting },
                        ));
                        assert(start.frames.drop_last().last() == waiting);
                    }
                    c.proceed()
                },
            }
        }
    }

    /// Goes on with what came of reading the document that was wanted:
    /// its contents, or `None` where it could not be read.
    pub fn supply(self, contents: Option<&str>) -> (r: Progress)
        ensures
            r@ == supply(
                self@,
                match contents {
                    Some(text) => Some(text@),
                    None => None,
                },
            ),
    {
        let text = match contents {
            Some(text) => text,
            None => { return Progress::Failed(CompileError::FileReadError); },
        };
        if self.limit == 0 || self.below.len() >= (self.limit - 1) as usize {
            return Progress::Failed(CompileError::ImportDepthExceeded);
        }
        let ghost start = self@;
        let Composition { mut below, top, wanted, limit } = self;
        match open_frame(top.base.as_str(), wanted.as_str(), text, true) {
            Err(e) => Progress::Failed(e),
            Ok(frame) => {
                below.push(top);
                let c = Composition { below, top: frame, wanted, limit };
                proof {
                    assert(c@.frames =~= start.frames.push(frame@));
                }
                c.proceed()
            },
        }
    }
}

/// Composes documents.
pub struct MarkdownPreprocessor {
    max_import_stack: u8,
}

impl MarkdownPreprocessor {
    /// The depth of imports that is no longer allowed.
    pub closed spec fn limit(&self) -> nat {
        self.max_import_stack as nat
    }

    /// A preprocessor that refuses imports at depth 100.
    pub fn new() -> (r: Self)
        ensures
            r.limit() == 100,
    {
        MarkdownPreprocessor { max_import_stack: 100 }
    }

    /// Expands the tags of `kind` in `line`.
    pub fn resolve_inline_tag(&self, line: &str, kind: TagKind) -> (r: String)
        ensures
            r@ == expand_tags(line@, kind),
    {
        from_chars(&expand_tags_in(&to_chars(line), kind))
    }

    /// Expands the annotations of `line`.
    pub fn resolve_tags(&self, line: &str) -> (r: String)
        ensures
            r@ == expand_line(line@),
    {
        from_chars(&expand_line_in(&to_chars(line)))
    }

    /// Begins to compose the document at `name` with the contents `code`,
    /// when `base` is the directory in use, and goes on until the composed
    /// document is there, a document is to be read, or the composition has
    /// failed.
    pub fn preprocess_markdown(&self, base: &str, name: &str, code: &str) -> (r: Progress)
        ensures
            r@ == begin(self.limit(), base@, name@, code@),
    {
        if self.max_import_stack == 0 {
            return Progress::Failed(CompileError::ImportDepthExceeded);
        }
        match open_frame(base, name, code, false) {
            Err(e) => Progress::Failed(e),
            Ok(frame) => {
                let c = Composition {
                    below: Vec::new(),
                    top: frame,
                    wanted: String::new(),
                    limit: self.max_import_stack,
                };
                proof {
                    assert(c@.frames =~= seq![frame@]);
                }
                c.proceed()
            },
        }
    }
}

} // verus!
