//! What a composition comes to.
//!
//! The composed document is stated here as a function of the files: a
//! document is its lines, each with its annotations expanded or replaced by
//! the document it imports, between its two markers.  A composition that is
//! answered from the same files comes to this document, or fails as this
//! statement fails.

use crate::annotations::expand_line;
use crate::error::CompileError;
use crate::md_compiler::{
    begin, closing_marker, expand_lines, first_import, import_path, import_target, is_import,
    lemma_first_import, open_document, opening_marker, proceed, supply, CompositionModel,
    FrameModel, Step,
};
use crate::text::join_lines;
use vstd::prelude::*;

verus! {

/// What the lines of a document from index `from` on compose to, where the
/// document is imported at `depth`, takes its imports from `base`, and
/// `files` gives the contents of the file at a path, or `None` where it
/// cannot be read.  An import stands for the imported document between its
/// markers; it fails where its path is no text, the file cannot be read, it
/// lies at the depth `limit`, or the imported document fails.
pub open spec fn composed_lines(
    files: spec_fn(Seq<char>) -> Option<Seq<char>>,
    limit: nat,
    depth: nat,
    base: Seq<char>,
    lines: Seq<Seq<char>>,
    from: int,
) -> Result<Seq<Seq<char>>, CompileError>
    decreases limit - depth, lines.len() - from,
{
    if from < 0 || from >= lines.len() {
        Ok(Seq::empty())
    } else {
        let first = if is_import(lines[from]) {
            match import_path(base, import_target(lines[from])) {
                None => Err(CompileError::PathEncodingError),
                Some(path) => match files(path) {
                    None => Err(CompileError::FileReadError),
                    Some(text) => if depth + 1 >= limit {
                        Err(CompileError::ImportDepthExceeded)
                    } else {
                        match open_document(base, path, text, true) {
                            Err(e) => Err(e),
                            Ok(frame) => match composed_lines(
                                files,
                                limit,
                                depth + 1,
                                frame.base,
                                frame.lines,
                                0,
                            ) {
                                Err(e) => Err(e),
                                Ok(body) => Ok(
                                    seq![opening_marker(frame.name)] + body
                                        + seq![closing_marker(frame.name)],
                                ),
                            },
                        }
                    },
                },
            }
        } else {
            Ok(seq![expand_line(lines[from])])
        };
        match first {
            Err(e) => Err(e),
            Ok(part) => match composed_lines(files, limit, depth, base, lines, from + 1) {
                Err(e) => Err(e),
                Ok(rest) => Ok(part + rest),
            },
        }
    }
}

/// What the document at `name` with the contents `text` composes to over
/// `files`, when `base` is the directory in use.
pub open spec fn composed_document(
    files: spec_fn(Seq<char>) -> Option<Seq<char>>,
    limit: nat,
    base: Seq<char>,
    name: Seq<char>,
    text: Seq<char>,
) -> Step {
    if limit == 0 {
        Step::Failed(CompileError::ImportDepthExceeded)
    } else {
        match open_document(base, name, text, false) {
            Err(e) => Step::Failed(e),
            Ok(frame) => match composed_lines(files, limit, 0, frame.base, frame.lines, 0) {
                Err(e) => Step::Failed(e),
                Ok(body) => Step::Composed(
                    join_lines(
                        seq![opening_marker(frame.name)] + body + seq![closing_marker(frame.name)],
                    ),
                ),
            },
        }
    }
}

/// Where `step` has come after at most `fuel` documents were read from
/// `files` as the composition wanted them.
pub open spec fn drive(
    files: spec_fn(Seq<char>) -> Option<Seq<char>>,
    step: Step,
    fuel: nat,
) -> Step
    decreases fuel,
{
    match step {
        Step::Reading(c) => if fuel == 0 {
            step
        } else {
            drive(files, supply(c, files(c.wanted)), (fuel - 1) as nat)
        },
        _ => step,
    }
}

/// The number of documents that are read while the lines of a document
/// from index `from` on are composed: one for each import whose path is
/// text, in this document and in those it imports, up to the first failure.
pub open spec fn reads(
    files: spec_fn(Seq<char>) -> Option<Seq<char>>,
    limit: nat,
    depth: nat,
    base: Seq<char>,
    lines: Seq<Seq<char>>,
    from: int,
) -> nat
    decreases limit - depth, lines.len() - from,
{
    if from < 0 || from >= lines.len() {
        0
    } else if is_import(lines[from]) {
        match import_path(base, import_target(lines[from])) {
            None => 0,
            Some(path) => 1 + match files(path) {
                None => 0,
                Some(text) => if depth + 1 >= limit {
                    0
                } else {
                    match open_document(base, path, text, true) {
                        Err(_) => 0,
                        Ok(frame) => reads(files, limit, depth + 1, frame.base, frame.lines, 0)
                            + match composed_lines(
                            files,
                            limit,
                            depth + 1,
                            frame.base,
                            frame.lines,
                            0,
                        ) {
                            Err(_) => 0,
                            Ok(_) => reads(files, limit, depth, base, lines, from + 1),
                        },
                    }
                },
            },
        }
    } else {
        reads(files, limit, depth, base, lines, from + 1)
    }
}

/// The number of documents that are read while the document at `name`
/// with the contents `text` is composed over `files`.
pub open spec fn reads_of(
    files: spec_fn(Seq<char>) -> Option<Seq<char>>,
    limit: nat,
    base: Seq<char>,
    name: Seq<char>,
    text: Seq<char>,
) -> nat {
    match open_document(base, name, text, false) {
        Ok(frame) => reads(files, limit, 0, frame.base, frame.lines, 0),
        Err(_) => 0,
    }
}

/// The number of documents that are still read while `frames` come to
/// their end over `files`.
pub open spec fn reads_left(
    files: spec_fn(Seq<char>) -> Option<Seq<char>>,
    limit: nat,
    frames: Seq<FrameModel>,
) -> nat
    decreases frames.len(),
{
    if frames.len() == 0 {
        0
    } else {
        let top = frames.last();
        let depth = (frames.len() - 1) as nat;
        reads(files, limit, depth, top.base, top.lines, top.next) + match composed_lines(
            files,
            limit,
            depth,
            top.base,
            top.lines,
            top.next,
        ) {
            Err(_) => 0,
            Ok(_) => reads_left(files, limit, frames.drop_last()),
        }
    }
}

/// The number of documents that are still read once the composition `c` is
/// told what came of reading the document it wants.
pub open spec fn reads_supplied(
    files: spec_fn(Seq<char>) -> Option<Seq<char>>,
    c: CompositionModel,
) -> nat {
    match files(c.wanted) {
        None => 0,
        Some(text) => if c.frames.len() >= c.limit {
            0
        } else {
            match open_document(c.frames.last().base, c.wanted, text, true) {
                Err(_) => 0,
                Ok(frame) => reads_left(files, c.limit, c.frames.push(frame)),
            }
        },
    }
}

/// Every document of `frames` has done some of its lines, and not more
/// than it has.
pub open spec fn in_range(frames: Seq<FrameModel>) -> bool {
    &&& frames.len() > 0
    &&& forall|i: int|
        0 <= i < frames.len() ==> 0 <= (#[trigger] frames[i]).next <= frames[i].lines.len()
}

/// What `frames` come to over `files` once the lines that are left of the
/// innermost document have composed to `body`.
pub open spec fn complete(
    files: spec_fn(Seq<char>) -> Option<Seq<char>>,
    limit: nat,
    frames: Seq<FrameModel>,
    body: Seq<Seq<char>>,
) -> Step
    decreases frames.len(), 0nat,
{
    let top = frames.last();
    let whole = seq![opening_marker(top.name)] + (top.out + body) + seq![closing_marker(top.name)];
    if frames.len() <= 1 {
        Step::Composed(join_lines(whole))
    } else {
        let below = frames.drop_last();
        let parent = below.last();
        finish(
            files,
            limit,
            below.drop_last().push(FrameModel { out: parent.out + whole, ..parent }),
        )
    }
}

/// What `frames` come to over `files`.
pub open spec fn finish(
    files: spec_fn(Seq<char>) -> Option<Seq<char>>,
    limit: nat,
    frames: Seq<FrameModel>,
) -> Step
    decreases frames.len(), 1nat,
{
    if frames.len() == 0 {
        Step::Composed(Seq::empty())
    } else {
        let top = frames.last();
        match composed_lines(
            files,
            limit,
            (frames.len() - 1) as nat,
            top.base,
            top.lines,
            top.next,
        ) {
            Err(e) => Step::Failed(e),
            Ok(body) => complete(files, limit, frames, body),
        }
    }
}

/// What the composition `c` comes to over `files` once it is told what came
/// of reading the document it wants.
pub open spec fn finish_supplied(
    files: spec_fn(Seq<char>) -> Option<Seq<char>>,
    c: CompositionModel,
) -> Step {
    match files(c.wanted) {
        None => Step::Failed(CompileError::FileReadError),
        Some(text) => if c.frames.len() >= c.limit {
            Step::Failed(CompileError::ImportDepthExceeded)
        } else {
            match open_document(c.frames.last().base, c.wanted, text, true) {
                Err(e) => Step::Failed(e),
                Ok(frame) => finish(files, c.limit, c.frames.push(frame)),
            }
        },
    }
}

/// The lines before the next import compose to their expansions.
proof fn lemma_lines_before_import(
    files: spec_fn(Seq<char>) -> Option<Seq<char>>,
    limit: nat,
    depth: nat,
    base: Seq<char>,
    lines: Seq<Seq<char>>,
    from: int,
)
    requires
        0 <= from <= lines.len(),
    ensures
        composed_lines(files, limit, depth, base, lines, from) == match composed_lines(
            files,
            limit,
            depth,
            base,
            lines,
            first_import(lines, from),
        ) {
            Err(e) => Err(e),
            Ok(rest) => Ok(expand_lines(lines.subrange(from, first_import(lines, from))) + rest),
        },
    decreases lines.len() - from,
{
    lemma_first_import(lines, from);
    let k = first_import(lines, from);
    if from == k {
        if let Ok(rest) = composed_lines(files, limit, depth, base, lines, k) {
            assert(expand_lines(lines.subrange(from, k)) + rest =~= rest);
        }
    } else {
        lemma_lines_before_import(files, limit, depth, base, lines, from + 1);
        if let Ok(rest) = composed_lines(files, limit, depth, base, lines, k) {
            assert(seq![expand_line(lines[from])] + (expand_lines(lines.subrange(from + 1, k))
                + rest) =~= expand_lines(lines.subrange(from, k)) + rest);
        }
    }
}

/// Going on changes nothing in what a composition comes to: where it
/// stops to read, what it comes to is what is left once the document is
/// there; where it ends, it ends with what it was to come to.
proof fn lemma_proceed_finish(files: spec_fn(Seq<char>) -> Option<Seq<char>>, c: CompositionModel)
    requires
        in_range(c.frames),
    ensures
        match proceed(c) {
            Step::Reading(next) => finish(files, c.limit, c.frames) == finish_supplied(files, next)
                && in_range(next.frames) && next.limit == c.limit,
            done => finish(files, c.limit, c.frames) == done,
        },
    decreases c.frames.len(),
{
    let limit = c.limit;
    let top = c.frames.last();
    let depth = (c.frames.len() - 1) as nat;
    let k = first_import(top.lines, top.next);
    lemma_first_import(top.lines, top.next);
    lemma_lines_before_import(files, limit, depth, top.base, top.lines, top.next);
    let prefix = expand_lines(top.lines.subrange(top.next, k));
    let out = top.out + prefix;
    let opening = seq![opening_marker(top.name)];
    let closing = seq![closing_marker(top.name)];
    if k < top.lines.len() {
        if let Some(path) = import_path(top.base, import_target(top.lines[k])) {
            let waiting = FrameModel { next: k + 1, out, ..top };
            let next = CompositionModel {
                frames: c.frames.drop_last().push(waiting),
                wanted: path,
                limit,
            };
            assert(proceed(c) == Step::Reading(next));
            assert(next.frames.last() == waiting);
            if let Some(text) = files(path) {
                if depth + 1 < limit {
                    if let Ok(frame) = open_document(top.base, path, text, true) {
                        let inner = next.frames.push(frame);
                        assert(inner.last() == frame);
                        assert(inner.drop_last() =~= next.frames);
                        if let Ok(body) = composed_lines(
                            files,
                            limit,
                            depth + 1,
                            frame.base,
                            frame.lines,
                            0,
                        ) {
                            let part = seq![opening_marker(frame.name)] + body
                                + seq![closing_marker(frame.name)];
                            assert(seq![opening_marker(frame.name)] + (frame.out + body)
                                + seq![closing_marker(frame.name)] =~= part);
                            let resumed = FrameModel { out: out + part, ..waiting };
                            let outer = next.frames.drop_last().push(resumed);
                            assert(complete(files, limit, inner, body) == finish(
                                files,
                                limit,
                                outer,
                            ));
                            assert(outer.last() == resumed);
                            assert(outer.drop_last() =~= c.frames.drop_last());
                            if let Ok(rest) = composed_lines(
                                files,
                                limit,
                                depth,
                                top.base,
                                top.lines,
                                k + 1,
                            ) {
                                assert(top.out + (prefix + (part + rest)) =~= (out + part) + rest);
                                assert(complete(files, limit, outer, rest) == complete(
                                    files,
                                    limit,
                                    c.frames,
                                    prefix + (part + rest),
                                ));
                            }
                        }
                    }
                }
            }
        }
    } else {
        let whole = opening + out + closing;
        assert(composed_lines(files, limit, depth, top.base, top.lines, k) == Ok::<
            Seq<Seq<char>>,
            CompileError,
        >(Seq::empty()));
        assert(opening + (top.out + (prefix + Seq::<Seq<char>>::empty())) + closing =~= whole);
        if c.frames.len() > 1 {
            let below = c.frames.drop_last();
            let parent = below.last();
            let resumed = CompositionModel {
                frames: below.drop_last().push(FrameModel { out: parent.out + whole, ..parent }),
                wanted: c.wanted,
                limit,
            };
            assert(in_range(resumed.frames)) by {
                assert forall|i: int| 0 <= i < resumed.frames.len() implies 0 <= (
                #[trigger] resumed.frames[i]).next <= resumed.frames[i].lines.len() by {
                    assert(c.frames[i].next == resumed.frames[i].next);
                    assert(c.frames[i].lines == resumed.frames[i].lines);
                }
            }
            lemma_proceed_finish(files, resumed);
        }
    }
}

/// A composition that goes on from `c` and is answered from `files` comes
/// to what `c` was to come to, unless it still waits for a document.
proof fn lemma_drive_finish(
    files: spec_fn(Seq<char>) -> Option<Seq<char>>,
    c: CompositionModel,
    fuel: nat,
)
    requires
        in_range(c.frames),
    ensures
        drive(files, proceed(c), fuel) is Reading || drive(files, proceed(c), fuel) == finish(
            files,
            c.limit,
            c.frames,
        ),
    decreases fuel,
{
    lemma_proceed_finish(files, c);
    if let Step::Reading(next) = proceed(c) {
        if fuel > 0 {
            let answered = supply(next, files(next.wanted));
            assert(drive(files, proceed(c), fuel) == drive(files, answered, (fuel - 1) as nat));
            if let Step::Reading(_) = answered {
            } else {
                assert(drive(files, answered, (fuel - 1) as nat) == answered);
            }
            if let Some(text) = files(next.wanted) {
                if next.frames.len() < next.limit {
                    if let Ok(frame) = open_document(
                        next.frames.last().base,
                        next.wanted,
                        text,
                        true,
                    ) {
                        let inner = CompositionModel {
                            frames: next.frames.push(frame),
                            wanted: next.wanted,
                            limit: next.limit,
                        };
                        assert(answered == proceed(inner));
                        assert(in_range(inner.frames)) by {
                            assert forall|i: int| 0 <= i < inner.frames.len() implies 0 <= (
                            #[trigger] inner.frames[i]).next <= inner.frames[i].lines.len() by {
                                if i < next.frames.len() {
                                    assert(inner.frames[i] == next.frames[i]);
                                }
                            }
                        }
                        lemma_drive_finish(files, inner, (fuel - 1) as nat);
                    }
                }
            }
        }
    } else {
        assert(drive(files, proceed(c), fuel) == proceed(c));
    }
}

/// Nothing is read for the lines before the next import.
proof fn lemma_reads_before_import(
    files: spec_fn(Seq<char>) -> Option<Seq<char>>,
    limit: nat,
    depth: nat,
    base: Seq<char>,
    lines: Seq<Seq<char>>,
    from: int,
)
    requires
        0 <= from <= lines.len(),
    ensures
        reads(files, limit, depth, base, lines, from) == reads(
            files,
            limit,
            depth,
            base,
            lines,
            first_import(lines, from),
        ),
    decreases lines.len() - from,
{
    lemma_first_import(lines, from);
    if from < first_import(lines, from) {
        lemma_reads_before_import(files, limit, depth, base, lines, from + 1);
    }
}

/// What is still read does not depend on what the lines that are done
/// have become.
proof fn lemma_reads_left_same(
    files: spec_fn(Seq<char>) -> Option<Seq<char>>,
    limit: nat,
    a: Seq<FrameModel>,
    b: Seq<FrameModel>,
)
    requires
        a.len() == b.len(),
        forall|i: int|
            0 <= i < a.len() ==> (#[trigger] a[i]).base == b[i].base && a[i].lines == b[i].lines
                && a[i].next == b[i].next,
    ensures
        reads_left(files, limit, a) == reads_left(files, limit, b),
    decreases a.len(),
{
    if a.len() > 0 {
        assert(a.last().base == b.last().base && a.last().lines == b.last().lines && a.last().next
            == b.last().next) by {
            assert(a[a.len() - 1].base == b[a.len() - 1].base);
        }
        assert forall|i: int| 0 <= i < a.drop_last().len() implies (#[trigger] a.drop_last()[i]).base
            == b.drop_last()[i].base && a.drop_last()[i].lines == b.drop_last()[i].lines
            && a.drop_last()[i].next == b.drop_last()[i].next by {
            assert(a.drop_last()[i] == a[i]);
            assert(b.drop_last()[i] == b[i]);
        }
        lemma_reads_left_same(files, limit, a.drop_last(), b.drop_last());
    }
}

/// Where a composition stops to read, one document more is still read
/// than once the document is there.
proof fn lemma_proceed_reads(files: spec_fn(Seq<char>) -> Option<Seq<char>>, c: CompositionModel)
    requires
        in_range(c.frames),
    ensures
        proceed(c) matches Step::Reading(next) ==> reads_left(files, c.limit, c.frames) == 1
            + reads_supplied(files, next),
    decreases c.frames.len(),
{
    let limit = c.limit;
    let top = c.frames.last();
    let depth = (c.frames.len() - 1) as nat;
    let k = first_import(top.lines, top.next);
    lemma_first_import(top.lines, top.next);
    lemma_lines_before_import(files, limit, depth, top.base, top.lines, top.next);
    lemma_reads_before_import(files, limit, depth, top.base, top.lines, top.next);
    let prefix = expand_lines(top.lines.subrange(top.next, k));
    let out = top.out + prefix;
    let here = composed_lines(files, limit, depth, top.base, top.lines, top.next);
    let at_import = composed_lines(files, limit, depth, top.base, top.lines, k);
    assert(here is Ok == at_import is Ok);
    assert(reads_left(files, limit, c.frames) == reads(
        files,
        limit,
        depth,
        top.base,
        top.lines,
        k,
    ) + if here is Ok {
        reads_left(files, limit, c.frames.drop_last())
    } else {
        0
    });
    if k < top.lines.len() {
        if let Some(path) = import_path(top.base, import_target(top.lines[k])) {
            let waiting = FrameModel { next: k + 1, out, ..top };
            let next = CompositionModel {
                frames: c.frames.drop_last().push(waiting),
                wanted: path,
                limit,
            };
            assert(proceed(c) == Step::Reading(next));
            assert(next.frames.last() == waiting);
            assert(next.frames.drop_last() =~= c.frames.drop_last());
            let after = composed_lines(files, limit, depth, top.base, top.lines, k + 1);
            let read_after = reads(files, limit, depth, top.base, top.lines, k + 1);
            assert(reads_left(files, limit, next.frames) == read_after + if after is Ok {
                reads_left(files, limit, c.frames.drop_last())
            } else {
                0
            });
            match files(path) {
                None => {
                    assert(at_import is Err);
                },
                Some(text) => {
                    if depth + 1 >= limit {
                        assert(at_import is Err);
                    } else {
                        match open_document(top.base, path, text, true) {
                            Err(_) => {
                                assert(at_import is Err);
                            },
                            Ok(frame) => {
                                let inner = next.frames.push(frame);
                                assert(inner.last() == frame);
                                assert(inner.drop_last() =~= next.frames);
                                let child = composed_lines(
                                    files,
                                    limit,
                                    depth + 1,
                                    frame.base,
                                    frame.lines,
                                    0,
                                );
                                let read_child = reads(
                                    files,
                                    limit,
                                    depth + 1,
                                    frame.base,
                                    frame.lines,
                                    0,
                                );
                                assert(reads_left(files, limit, inner) == read_child + if child
                                    is Ok {
                                    reads_left(files, limit, next.frames)
                                } else {
                                    0
                                });
                                assert(at_import is Ok == (child is Ok && after is Ok));
                                assert(reads(files, limit, depth, top.base, top.lines, k) == 1
                                    + read_child + if child is Ok {
                                    read_after
                                } else {
                                    0
                                });
                            },
                        }
                    }
                },
            }
        }
    } else if c.frames.len() > 1 {
        let whole = seq![opening_marker(top.name)] + out + seq![closing_marker(top.name)];
        let below = c.frames.drop_last();
        let parent = below.last();
        let resumed = CompositionModel {
            frames: below.drop_last().push(FrameModel { out: parent.out + whole, ..parent }),
            wanted: c.wanted,
            limit,
        };
        assert(proceed(c) == proceed(resumed));
        assert(in_range(resumed.frames)) by {
            assert forall|i: int| 0 <= i < resumed.frames.len() implies 0 <= (
            #[trigger] resumed.frames[i]).next <= resumed.frames[i].lines.len() by {
                assert(c.frames[i].next == resumed.frames[i].next);
                assert(c.frames[i].lines == resumed.frames[i].lines);
            }
        }
        lemma_proceed_reads(files, resumed);
        assert forall|i: int| 0 <= i < below.len() implies (#[trigger] below[i]).base
            == resumed.frames[i].base && below[i].lines == resumed.frames[i].lines && below[i].next
            == resumed.frames[i].next by {
            assert(below[i] == c.frames[i]);
        }
        lemma_reads_left_same(files, limit, below, resumed.frames);
        assert(at_import is Ok);
        assert(reads(files, limit, depth, top.base, top.lines, k) == 0);
    }
}

/// A composition that goes on from `c` and is answered from `files` no
/// longer waits for a document once as many were read as are still read.
proof fn lemma_drive_ends(
    files: spec_fn(Seq<char>) -> Option<Seq<char>>,
    c: CompositionModel,
    fuel: nat,
)
    requires
        in_range(c.frames),
        fuel >= reads_left(files, c.limit, c.frames),
    ensures
        !(drive(files, proceed(c), fuel) is Reading),
    decreases fuel,
{
    lemma_proceed_reads(files, c);
    lemma_proceed_finish(files, c);
    if let Step::Reading(next) = proceed(c) {
        let answered = supply(next, files(next.wanted));
        assert(drive(files, proceed(c), fuel) == drive(files, answered, (fuel - 1) as nat));
        if let Step::Reading(_) = answered {
        } else {
            assert(drive(files, answered, (fuel - 1) as nat) == answered);
        }
        if let Some(text) = files(next.wanted) {
            if next.frames.len() < next.limit {
                if let Ok(frame) = open_document(next.frames.last().base, next.wanted, text, true) {
                    let inner = CompositionModel {
                        frames: next.frames.push(frame),
                        wanted: next.wanted,
                        limit: next.limit,
                    };
                    assert(answered == proceed(inner));
                    assert(in_range(inner.frames)) by {
                        assert forall|i: int| 0 <= i < inner.frames.len() implies 0 <= (
                        #[trigger] inner.frames[i]).next <= inner.frames[i].lines.len() by {
                            if i < next.frames.len() {
                                assert(inner.frames[i] == next.frames[i]);
                            }
                        }
                    }
                    lemma_drive_ends(files, inner, (fuel - 1) as nat);
                }
            }
        }
    } else {
        assert(drive(files, proceed(c), fuel) == proceed(c));
    }
}

/// A composition that is answered from `files` comes to the composed
/// document as it is stated over `files`, or fails as that statement fails:
/// after `fuel` documents were read it either still waits for one, or has
/// come to exactly that; and it waits for none once `reads_of` documents
/// were read.
pub proof fn lemma_composition(
    files: spec_fn(Seq<char>) -> Option<Seq<char>>,
    limit: nat,
    base: Seq<char>,
    name: Seq<char>,
    text: Seq<char>,
    fuel: nat,
)
    ensures
        drive(files, begin(limit, base, name, text), fuel) is Reading || drive(
            files,
            begin(limit, base, name, text),
            fuel,
        ) == composed_document(files, limit, base, name, text),
        fuel >= reads_of(files, limit, base, name, text) ==> drive(
            files,
            begin(limit, base, name, text),
            fuel,
        ) == composed_document(files, limit, base, name, text),
{
    if limit > 0 {
        if let Ok(frame) = open_document(base, name, text, false) {
            let c = CompositionModel { frames: seq![frame], wanted: Seq::empty(), limit };
            assert(c.frames.last() == frame);
            lemma_drive_finish(files, c, fuel);
            if let Ok(body) = composed_lines(files, limit, 0, frame.base, frame.lines, 0) {
                assert(seq![opening_marker(frame.name)] + (frame.out + body)
                    + seq![closing_marker(frame.name)] =~= seq![opening_marker(frame.name)] + body
                    + seq![closing_marker(frame.name)]);
            }
            assert(reads_left(files, limit, c.frames.drop_last()) == 0);
            if fuel >= reads_of(files, limit, base, name, text) {
                lemma_drive_ends(files, c, fuel);
            }
        } else {
            assert(drive(files, begin(limit, base, name, text), fuel) == begin(
                limit,
                base,
                name,
                text,
            ));
        }
    } else {
        assert(drive(files, begin(limit, base, name, text), fuel) == begin(
            limit,
            base,
            name,
            text,
        ));
    }
}

} // verus!
