//! Inline annotation tags: `@#name` and `@.name` become empty spans that
//! carry the name as `id` or `class`, and `@//` cuts the line.

use crate::text::{
    append, append_range, find, first_occurrence, lemma_first_occurrence, lemma_token_end,
    occurs_at, scan_token, to_chars, token_end,
};
use vstd::prelude::*;

verus! {

/// The two kinds of tag that carry a name.
#[derive(Clone, Copy, Debug, PartialEq, Eq, Structural)]
pub enum TagKind {
    /// `@#name`, which names an `id`.
    Id,
    /// `@.name`, which names a `class`.
    Class,
}

impl TagKind {
    /// The characters that introduce a tag of this kind.
    pub open spec fn marker(self) -> Seq<char> {
        match self {
            TagKind::Id => seq!['@', '#'],
            TagKind::Class => seq!['@', '.'],
        }
    }

    /// The markup that stands before the name of a tag of this kind.
    pub open spec fn opening(self) -> Seq<char> {
        match self {
            TagKind::Id => "<span id='"@,
            TagKind::Class => "<span class='"@,
        }
    }
}

/// The markup that stands behind the name of a tag.
pub open spec fn closing() -> Seq<char> {
    "'></span>"@
}

/// The characters from which on a line is a comment.
pub open spec fn comment_marker() -> Seq<char> {
    seq!['@', '/', '/']
}

/// The empty span that carries `name` as the attribute of `kind`.
pub open spec fn span(kind: TagKind, name: Seq<char>) -> Seq<char> {
    kind.opening() + name + closing()
}

/// What the part of `s` from index `from` on becomes when its tags of
/// `kind` are expanded, from left to right.  A tag reaches from its marker
/// to the next whitespace or to the end; its name is what follows the
/// marker.  The search goes on behind the tag, so what an expansion wrote is
/// not searched again.  A marker as the last characters of `s` is no tag: it
/// and what stands before it stay as they are.
pub open spec fn expand_tags_from(s: Seq<char>, kind: TagKind, from: int) -> Seq<char>
    decreases s.len() - from,
{
    match first_occurrence(s, kind.marker(), from) {
        None => s.subrange(from, s.len() as int),
        Some(p) => {
            let start = p + kind.marker().len();
            if start >= s.len() {
                s.subrange(from, s.len() as int)
            } else {
                let end = token_end(s, start);
                proof {
                    lemma_first_occurrence(s, kind.marker(), from);
                    lemma_token_end(s, start);
                }
                s.subrange(from, p) + span(kind, s.subrange(start, end)) + expand_tags_from(
                    s,
                    kind,
                    end,
                )
            }
        },
    }
}

/// `s` with its tags of `kind` expanded.
pub open spec fn expand_tags(s: Seq<char>, kind: TagKind) -> Seq<char> {
    expand_tags_from(s, kind, 0)
}

/// `s` up to its first comment marker, or all of `s` where it has none.
pub open spec fn drop_comment(s: Seq<char>) -> Seq<char> {
    match first_occurrence(s, comment_marker(), 0) {
        Some(p) => s.take(p),
        None => s,
    }
}

/// The line `s` with its annotations expanded: first every `id` tag, then
/// every `class` tag, then the comment is dropped.
pub open spec fn expand_line(s: Seq<char>) -> Seq<char> {
    drop_comment(expand_tags(expand_tags(s, TagKind::Id), TagKind::Class))
}

/// A line that annotation expansion leaves as it is: it holds no comment
/// marker, and a tag marker at most as its last characters.
pub open spec fn settled(s: Seq<char>) -> bool {
    &&& first_occurrence(s, comment_marker(), 0) is None
    &&& forall|kind: TagKind|
        (#[trigger] first_occurrence(s, kind.marker(), 0)) matches Some(p) ==> p
            + kind.marker().len() == s.len()
}

/// Expansion changes nothing in a settled line.
pub proof fn lemma_settled_is_fixed(s: Seq<char>)
    requires
        settled(s),
    ensures
        expand_line(s) == s,
{
    assert(s.subrange(0, s.len() as int) =~= s);
    assert(first_occurrence(s, TagKind::Id.marker(), 0) is Some ==> first_occurrence(
        s,
        TagKind::Id.marker(),
        0,
    )->0 + TagKind::Id.marker().len() == s.len());
    assert(expand_tags(s, TagKind::Id) == s);
    assert(first_occurrence(s, TagKind::Class.marker(), 0) is Some ==> first_occurrence(
        s,
        TagKind::Class.marker(),
        0,
    )->0 + TagKind::Class.marker().len() == s.len());
    assert(expand_tags(s, TagKind::Class) == s);
}

/// No character of `s` is an `@`.
pub open spec fn plain(s: Seq<char>) -> bool {
    forall|i: int| 0 <= i < s.len() ==> s[i] != '@'
}

/// Every tag of `kind` in `s` from index `from` on has a name without `@`.
pub open spec fn plain_names_from(s: Seq<char>, kind: TagKind, from: int) -> bool
    decreases s.len() - from,
{
    match first_occurrence(s, kind.marker(), from) {
        None => true,
        Some(p) => {
            let start = p + kind.marker().len();
            if start >= s.len() {
                true
            } else {
                let end = token_end(s, start);
                proof {
                    lemma_first_occurrence(s, kind.marker(), from);
                    lemma_token_end(s, start);
                }
                plain(s.subrange(start, end)) && plain_names_from(s, kind, end)
            }
        },
    }
}

/// No name of a tag of the line `s` holds an `@`: not that of an `id` tag
/// of `s`, and not that of a `class` tag of `s` with its `id` tags expanded.
pub open spec fn plain_names(s: Seq<char>) -> bool {
    &&& plain_names_from(s, TagKind::Id, 0)
    &&& plain_names_from(expand_tags(s, TagKind::Id), TagKind::Class, 0)
}

/// `pat` stands in `s` at most as its last characters.
pub open spec fn only_at_end(s: Seq<char>, pat: Seq<char>) -> bool {
    forall|q: int| occurs_at(s, pat, q) ==> q + pat.len() == s.len()
}

/// `m` begins with `@` and holds no `<`, as every marker does.
pub open spec fn marker_like(m: Seq<char>) -> bool {
    &&& m.len() > 0
    &&& m[0] == '@'
    &&& forall|k: int| 0 <= k < m.len() ==> m[k] != '<'
}

/// An occurrence is a run of equal characters.
proof fn lemma_occurs_chars(s: Seq<char>, pat: Seq<char>, i: int)
    ensures
        occurs_at(s, pat, i) <==> (0 <= i && i + pat.len() <= s.len() && forall|k: int|
            0 <= k < pat.len() ==> s[i + k] == pat[k]),
{
    if 0 <= i && i + pat.len() <= s.len() {
        let sub = s.subrange(i, i + pat.len());
        if sub == pat {
            assert forall|k: int| 0 <= k < pat.len() implies s[i + k] == pat[k] by {
                assert(sub[k] == s[i + k]);
            }
        }
        if forall|k: int| 0 <= k < pat.len() ==> s[i + k] == pat[k] {
            assert(sub =~= pat);
        }
    }
}

/// An occurrence in a part of `s` is an occurrence in `s`.
proof fn lemma_occurs_in_part(s: Seq<char>, from: int, to: int, pat: Seq<char>, q: int)
    requires
        0 <= from <= to <= s.len(),
    ensures
        occurs_at(s.subrange(from, to), pat, q) <==> (occurs_at(s, pat, from + q) && 0 <= q && from
            + q + pat.len() <= to),
{
    let part = s.subrange(from, to);
    if 0 <= q && from + q + pat.len() <= to {
        assert(part.subrange(q, q + pat.len()) =~= s.subrange(from + q, from + q + pat.len()));
    }
}

/// The markup around a name without `@` holds no `@` and begins with `<`.
proof fn lemma_span_is_plain(kind: TagKind, name: Seq<char>)
    requires
        plain(name),
    ensures
        plain(span(kind, name)),
        span(kind, name).len() > 0,
        span(kind, name)[0] == '<',
{
    reveal_strlit("<span id='");
    reveal_strlit("<span class='");
    reveal_strlit("'></span>");
    assert(plain(kind.opening()));
    assert(plain(closing()));
}

/// A marker that stands in a text around a span stands before the span
/// or behind it: it neither lies in the span nor reaches into it.
proof fn lemma_occurs_around(a: Seq<char>, b: Seq<char>, c: Seq<char>, m: Seq<char>, q: int)
    requires
        marker_like(m),
        plain(b),
        b.len() > 0,
        b[0] == '<',
        occurs_at(a + b + c, m, q),
    ensures
        (q + m.len() <= a.len() && occurs_at(a, m, q)) || (q >= a.len() + b.len() && occurs_at(
            c,
            m,
            q - a.len() - b.len(),
        )),
{
    let x = a + b + c;
    lemma_occurs_chars(x, m, q);
    if q < a.len() {
        if q + m.len() <= a.len() {
            lemma_occurs_chars(a, m, q);
            assert forall|k: int| 0 <= k < m.len() implies a[q + k] == m[k] by {
                assert(x[q + k] == a[q + k]);
            }
        } else {
            let k = a.len() - q;
            assert(x[q + k] == b[0]);
            assert(m[k] == '<');
        }
    } else if q < a.len() + b.len() {
        assert(x[q + 0] == b[q - a.len()]);
        assert(m[0] == '@');
    } else {
        let r = q - a.len() - b.len();
        lemma_occurs_chars(c, m, r);
        assert forall|k: int| 0 <= k < m.len() implies c[r + k] == m[k] by {
            assert(x[q + k] == c[r + k]);
        }
    }
}

/// Where the names hold no `@`, expanding the tags of a kind leaves the
/// marker of that kind at most at the end.
proof fn lemma_own_marker_only_at_end(s: Seq<char>, kind: TagKind, from: int)
    requires
        0 <= from <= s.len(),
        plain_names_from(s, kind, from),
    ensures
        only_at_end(expand_tags_from(s, kind, from), kind.marker()),
    decreases s.len() - from,
{
    let m = kind.marker();
    let out = expand_tags_from(s, kind, from);
    let len = s.len() as int;
    lemma_first_occurrence(s, m, from);
    match first_occurrence(s, m, from) {
        None => {
            assert forall|q: int| occurs_at(out, m, q) implies q + m.len() == out.len() by {
                lemma_occurs_in_part(s, from, len, m, q);
            }
        },
        Some(p) => {
            let start = p + m.len();
            if start >= len {
                assert forall|q: int| occurs_at(out, m, q) implies q + m.len() == out.len() by {
                    lemma_occurs_in_part(s, from, len, m, q);
                }
            } else {
                let end = token_end(s, start);
                lemma_token_end(s, start);
                let a = s.subrange(from, p);
                let b = span(kind, s.subrange(start, end));
                let c = expand_tags_from(s, kind, end);
                lemma_span_is_plain(kind, s.subrange(start, end));
                lemma_own_marker_only_at_end(s, kind, end);
                assert(out == a + b + c);
                assert forall|q: int| occurs_at(out, m, q) implies q + m.len() == out.len() by {
                    lemma_occurs_around(a, b, c, m, q);
                    lemma_occurs_in_part(s, from, p, m, q);
                }
            }
        },
    }
}

/// Where the names hold no `@`, expanding the tags of a kind leaves a
/// marker that stood at most at the end at most at the end.
proof fn lemma_other_marker_only_at_end(s: Seq<char>, kind: TagKind, from: int, m: Seq<char>)
    requires
        0 <= from <= s.len(),
        plain_names_from(s, kind, from),
        marker_like(m),
        only_at_end(s, m),
    ensures
        only_at_end(expand_tags_from(s, kind, from), m),
    decreases s.len() - from,
{
    let out = expand_tags_from(s, kind, from);
    let len = s.len() as int;
    lemma_first_occurrence(s, kind.marker(), from);
    match first_occurrence(s, kind.marker(), from) {
        None => {
            assert forall|q: int| occurs_at(out, m, q) implies q + m.len() == out.len() by {
                lemma_occurs_in_part(s, from, len, m, q);
            }
        },
        Some(p) => {
            let start = p + kind.marker().len();
            if start >= len {
                assert forall|q: int| occurs_at(out, m, q) implies q + m.len() == out.len() by {
                    lemma_occurs_in_part(s, from, len, m, q);
                }
            } else {
                let end = token_end(s, start);
                lemma_token_end(s, start);
                let a = s.subrange(from, p);
                let b = span(kind, s.subrange(start, end));
                let c = expand_tags_from(s, kind, end);
                lemma_span_is_plain(kind, s.subrange(start, end));
                lemma_other_marker_only_at_end(s, kind, end, m);
                assert(out == a + b + c);
                assert forall|q: int| occurs_at(out, m, q) implies q + m.len() == out.len() by {
                    lemma_occurs_around(a, b, c, m, q);
                    lemma_occurs_in_part(s, from, p, m, q);
                }
            }
        },
    }
}

/// Dropping the comment leaves no comment marker, and leaves a marker that
/// stood at most at the end at most at the end.
proof fn lemma_drop_comment(s: Seq<char>, m: Seq<char>)
    requires
        m.len() > 0,
        only_at_end(s, m),
    ensures
        only_at_end(drop_comment(s), m),
        first_occurrence(drop_comment(s), comment_marker(), 0) is None,
{
    let out = drop_comment(s);
    lemma_first_occurrence(s, comment_marker(), 0);
    lemma_first_occurrence(out, comment_marker(), 0);
    if let Some(p) = first_occurrence(s, comment_marker(), 0) {
        assert(out == s.subrange(0, p));
        assert forall|q: int| occurs_at(out, m, q) implies q + m.len() == out.len() by {
            lemma_occurs_in_part(s, 0, p, m, q);
        }
        if let Some(q) = first_occurrence(out, comment_marker(), 0) {
            lemma_occurs_in_part(s, 0, p, comment_marker(), q);
        }
    }
}

/// Where no name of a tag holds an `@`, the expansion of a line leaves no
/// tag behind: what it writes holds no marker.
pub proof fn lemma_plain_names_settle(s: Seq<char>)
    requires
        plain_names(s),
    ensures
        settled(expand_line(s)),
{
    let id = TagKind::Id.marker();
    let class = TagKind::Class.marker();
    let with_ids = expand_tags(s, TagKind::Id);
    let with_classes = expand_tags(with_ids, TagKind::Class);
    let out = expand_line(s);
    lemma_own_marker_only_at_end(s, TagKind::Id, 0);
    lemma_own_marker_only_at_end(with_ids, TagKind::Class, 0);
    lemma_other_marker_only_at_end(with_ids, TagKind::Class, 0, id);
    lemma_drop_comment(with_classes, id);
    lemma_drop_comment(with_classes, class);
    assert forall|kind: TagKind| (#[trigger] first_occurrence(out, kind.marker(), 0)) is Some implies
        first_occurrence(out, kind.marker(), 0)->0 + kind.marker().len() == out.len() by {
        lemma_first_occurrence(out, kind.marker(), 0);
    }
}

/// Expanding a line a second time changes nothing, where the first
/// expansion left no tag behind.  It leaves one behind where a name holds a
/// marker itself, as in `@#a@#b`.
pub proof fn lemma_expand_line_idempotent(s: Seq<char>)
    requires
        settled(expand_line(s)),
    ensures
        expand_line(expand_line(s)) == expand_line(s),
{
    lemma_settled_is_fixed(expand_line(s));
}

/// Expanding a line a second time changes nothing, where no name of a tag
/// holds an `@`.
pub proof fn lemma_expand_line_idempotent_on_plain_names(s: Seq<char>)
    requires
        plain_names(s),
    ensures
        expand_line(expand_line(s)) == expand_line(s),
{
    lemma_plain_names_settle(s);
    lemma_settled_is_fixed(expand_line(s));
}

/// The marker of `kind`.
fn marker_of(kind: TagKind) -> (v: Vec<char>)
    ensures
        v@ == kind.marker(),
{
    let mut v: Vec<char> = Vec::new();
    v.push('@');
    match kind {
        TagKind::Id => v.push('#'),
        TagKind::Class => v.push('.'),
    }
    proof {
        assert(v@ =~= kind.marker());
    }
    v
}

/// The markup that stands before the name of a tag of `kind`.
fn opening_of(kind: TagKind) -> (v: Vec<char>)
    ensures
        v@ == kind.opening(),
{
    match kind {
        TagKind::Id => to_chars("<span id='"),
        TagKind::Class => to_chars("<span class='"),
    }
}

/// Expands the tags of `kind` in `s`.
pub fn expand_tags_in(s: &Vec<char>, kind: TagKind) -> (out: Vec<char>)
    ensures
        out@ == expand_tags(s@, kind),
{
    let marker = marker_of(kind);
    let opening = opening_of(kind);
    let tail = to_chars("'></span>");
    let mut out: Vec<char> = Vec::new();
    let mut i: usize = 0;
    let mut done = false;
    while !done
        invariant
            i <= s.len(),
            marker@ == kind.marker(),
            opening@ == kind.opening(),
            tail@ == closing(),
            !done ==> out@ + expand_tags_from(s@, kind, i as int) == expand_tags(s@, kind),
            done ==> out@ == expand_tags(s@, kind),
        decreases (if done { 0 } else { 1 + s.len() - i }),
    {
        let ghost before = out@;
        proof {
            lemma_first_occurrence(s@, kind.marker(), i as int);
        }
        match find(s, &marker, i) {
            None => {
                append_range(&mut out, s, i, s.len());
                done = true;
            },
            Some(p) => {
                let start: usize = p + marker.len();
                if start >= s.len() {
                    append_range(&mut out, s, i, s.len());
                    done = true;
                } else {
                    let end = scan_token(s, start);
                    proof {
                        lemma_token_end(s@, start as int);
                    }
                    append_range(&mut out, s, i, p);
                    append(&mut out, &opening);
                    append_range(&mut out, s, start, end);
                    append(&mut out, &tail);
                    proof {
                        assert(out@ =~= before + (s@.subrange(i as int, p as int) + span(
                            kind,
                            s@.subrange(start as int, end as int),
                        )));
                        assert(before + (s@.subrange(i as int, p as int) + span(
                            kind,
                            s@.subrange(start as int, end as int),
                        )) + expand_tags_from(s@, kind, end as int) =~= before + expand_tags_from(
                            s@,
                            kind,
                            i as int,
                        ));
                    }
                    i = end;
                }
            },
        }
    }
    out
}

/// Expands the annotations of the line `s`.
pub fn expand_line_in(s: &Vec<char>) -> (out: Vec<char>)
    ensures
        out@ == expand_line(s@),
{
    let with_ids = expand_tags_in(s, TagKind::Id);
    let mut with_classes = expand_tags_in(&with_ids, TagKind::Class);
    let mut marker: Vec<char> = Vec::new();
    marker.push('@');
    marker.push('/');
    marker.push('/');
    proof {
        assert(marker@ =~= comment_marker());
        lemma_first_occurrence(with_classes@, comment_marker(), 0);
    }
    match find(&with_classes, &marker, 0) {
        Some(p) => {
            with_classes.truncate(p);
            with_classes
        },
        None => with_classes,
    }
}

} // verus!
