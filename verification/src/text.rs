//! Text as sequences of characters: conversion, search, tokens and lines.

use vstd::prelude::*;

verus! {

/// Whether `c` has the Unicode property `White_Space`.
pub open spec fn is_whitespace(c: char) -> bool {
    let n = c as u32;
    ||| 0x09 <= n <= 0x0D
    ||| n == 0x20
    ||| n == 0x85
    ||| n == 0xA0
    ||| n == 0x1680
    ||| 0x2000 <= n <= 0x200A
    ||| n == 0x2028
    ||| n == 0x2029
    ||| n == 0x202F
    ||| n == 0x205F
    ||| n == 0x3000
}

/// `pat` stands in `s` at index `i`.
pub open spec fn occurs_at(s: Seq<char>, pat: Seq<char>, i: int) -> bool {
    0 <= i && i + pat.len() <= s.len() && s.subrange(i, i + pat.len()) == pat
}

/// The least index at or after `from` at which `pat` stands in `s`.
pub open spec fn first_occurrence(s: Seq<char>, pat: Seq<char>, from: int) -> Option<int>
    decreases s.len() + 1 - from,
{
    if from < 0 || from + pat.len() > s.len() {
        None
    } else if occurs_at(s, pat, from) {
        Some(from)
    } else {
        first_occurrence(s, pat, from + 1)
    }
}

/// The end of the whitespace-free run of `s` that starts at `from`: the
/// index of the first whitespace character at or after `from`, or the
/// length of `s` where none follows.
pub open spec fn token_end(s: Seq<char>, from: int) -> int
    decreases s.len() - from,
{
    if from < 0 || from >= s.len() {
        s.len() as int
    } else if is_whitespace(s[from]) {
        from
    } else {
        token_end(s, from + 1)
    }
}

/// The texts that the vectors of `v` hold, in order.
pub open spec fn texts(v: Seq<Vec<char>>) -> Seq<Seq<char>> {
    Seq::new(v.len(), |i: int| v[i]@)
}

/// The line feed, which ends a line.
pub open spec fn line_feed() -> Seq<char> {
    seq!['\n']
}

/// `l` without the carriage return at its end, if it has one.
pub open spec fn strip_carriage_return(l: Seq<char>) -> Seq<char> {
    if l.len() > 0 && l.last() == '\r' {
        l.drop_last()
    } else {
        l
    }
}

/// The lines of `s` from index `from` on.  A line ends at a line feed, or
/// at a carriage return directly before one; what follows the last line
/// feed is a line of its own unless it is empty.
pub open spec fn lines_from(s: Seq<char>, from: int) -> Seq<Seq<char>>
    decreases s.len() - from,
{
    if from < 0 || from >= s.len() {
        Seq::empty()
    } else {
        match first_occurrence(s, line_feed(), from) {
            Some(e) => {
                proof {
                    lemma_first_occurrence(s, line_feed(), from);
                }
                seq![strip_carriage_return(s.subrange(from, e))] + lines_from(s, e + 1)
            },
            None => seq![s.subrange(from, s.len() as int)],
        }
    }
}

/// The lines of `s`.
pub open spec fn lines(s: Seq<char>) -> Seq<Seq<char>> {
    lines_from(s, 0)
}

/// The lines put together again, with one line feed between neighbours.
pub open spec fn join_lines(lines: Seq<Seq<char>>) -> Seq<char>
    decreases lines.len(),
{
    if lines.len() == 0 {
        Seq::empty()
    } else if lines.len() == 1 {
        lines[0]
    } else {
        join_lines(lines.drop_last()) + line_feed() + lines.last()
    }
}

/// What `first_occurrence` finds is an occurrence, and the first one.
pub proof fn lemma_first_occurrence(s: Seq<char>, pat: Seq<char>, from: int)
    requires
        0 <= from,
    ensures
        match first_occurrence(s, pat, from) {
            Some(p) => from <= p && occurs_at(s, pat, p) && forall|j: int|
                from <= j < p ==> !occurs_at(s, pat, j),
            None => forall|j: int| from <= j ==> !occurs_at(s, pat, j),
        },
    decreases s.len() + 1 - from,
{
    if from + pat.len() > s.len() {
    } else if occurs_at(s, pat, from) {
    } else {
        lemma_first_occurrence(s, pat, from + 1);
    }
}

/// `token_end` lies between `from` and the end, nothing before it is
/// whitespace, and it is the end or a whitespace character.
pub proof fn lemma_token_end(s: Seq<char>, from: int)
    requires
        0 <= from <= s.len(),
    ensures
        from <= token_end(s, from) <= s.len(),
        forall|j: int| from <= j < token_end(s, from) ==> !is_whitespace(s[j]),
        token_end(s, from) < s.len() ==> is_whitespace(s[token_end(s, from)]),
    decreases s.len() - from,
{
    if from < s.len() && !is_whitespace(s[from]) {
        lemma_token_end(s, from + 1);
    }
}

/// Decides `is_whitespace`.
pub fn char_is_whitespace(c: char) -> (b: bool)
    ensures
        b == is_whitespace(c),
{
    let n: u32 = c as u32;
    (0x09 <= n && n <= 0x0D) || n == 0x20 || n == 0x85 || n == 0xA0 || n == 0x1680 || (0x2000 <= n
        && n <= 0x200A) || n == 0x2028 || n == 0x2029 || n == 0x202F || n == 0x205F || n == 0x3000
}

/// The characters of `s`, in order.
pub fn to_chars(s: &str) -> (v: Vec<char>)
    ensures
        v@ == s@,
{
    let mut v: Vec<char> = Vec::new();
    for c in it: s.chars()
        invariant
            v@ == it.seq().take(it.index()),
    {
        v.push(c);
    }
    v
}

/// `String::push`: appends one character to the string.
#[verifier::external_body]
fn push_char(s: &mut String, c: char)
    ensures
        final(s)@ == old(s)@.push(c),
{
    s.push(c)
}

/// The string made of the characters of `v`, in order.
pub fn from_chars(v: &Vec<char>) -> (s: String)
    ensures
        s@ == v@,
{
    let mut s = String::new();
    let mut i: usize = 0;
    while i < v.len()
        invariant
            i <= v.len(),
            s@ == v@.take(i as int),
        decreases v.len() - i,
    {
        push_char(&mut s, v[i]);
        i += 1;
    }
    s
}

/// Whether `pat` stands in `s` at index `i`.
pub fn matches_at(s: &Vec<char>, pat: &Vec<char>, i: usize) -> (b: bool)
    ensures
        b == occurs_at(s@, pat@, i as int),
{
    if pat.len() > s.len() || i > s.len() - pat.len() {
        return false;
    }
    let mut k: usize = 0;
    while k < pat.len()
        invariant
            k <= pat.len(),
            i + pat.len() <= s.len(),
            forall|j: int| 0 <= j < k ==> s@[i + j] == pat@[j],
        decreases pat.len() - k,
    {
        if s[i + k] != pat[k] {
            proof {
                assert(s@.subrange(i as int, i + pat.len())[k as int] == s@[i + k]);
            }
            return false;
        }
        k += 1;
    }
    proof {
        assert(s@.subrange(i as int, i + pat.len()) =~= pat@);
    }
    true
}

/// The first index at or after `from` at which `pat` stands in `s`.
pub fn find(s: &Vec<char>, pat: &Vec<char>, from: usize) -> (r: Option<usize>)
    ensures
        match r {
            Some(p) => first_occurrence(s@, pat@, from as int) == Some(p as int),
            None => first_occurrence(s@, pat@, from as int) is None,
        },
{
    if from > s.len() {
        return None;
    }
    let mut i: usize = from;
    while pat.len() <= s.len() - i
        invariant
            from <= i <= s.len(),
            first_occurrence(s@, pat@, from as int) == first_occurrence(s@, pat@, i as int),
        decreases s.len() - i,
    {
        if matches_at(s, pat, i) {
            return Some(i);
        }
        if i == s.len() {
            proof {
                assert(s@.subrange(i as int, i + pat.len()) =~= pat@);
            }
            return None;
        }
        i += 1;
    }
    None
}

/// The end of the whitespace-free run of `s` that starts at `from`.
pub fn scan_token(s: &Vec<char>, from: usize) -> (end: usize)
    ensures
        end == token_end(s@, from as int),
{
    let mut i: usize = if from < s.len() {
        from
    } else {
        s.len()
    };
    while i < s.len() && !char_is_whitespace(s[i])
        invariant
            i <= s.len(),
            token_end(s@, from as int) == token_end(s@, i as int),
        decreases s.len() - i,
    {
        i += 1;
    }
    i
}

/// Appends the characters of `s` from index `from` up to `to` to `out`.
pub(crate) fn append_range(out: &mut Vec<char>, s: &Vec<char>, from: usize, to: usize)
    requires
        from <= to <= s.len(),
    ensures
        final(out)@ == old(out)@ + s@.subrange(from as int, to as int),
{
    let mut i: usize = from;
    while i < to
        invariant
            from <= i <= to <= s.len(),
            out@ == old(out)@ + s@.subrange(from as int, i as int),
        decreases to - i,
    {
        out.push(s[i]);
        i += 1;
    }
}

/// Appends the characters of `part` to `out`.
pub fn append(out: &mut Vec<char>, part: &Vec<char>)
    ensures
        final(out)@ == old(out)@ + part@,
{
    append_range(out, part, 0, part.len());
    proof {
        assert(part@.subrange(0, part.len() as int) =~= part@);
    }
}

/// The characters of `s` from index `from` up to `to`.
pub(crate) fn slice(s: &Vec<char>, from: usize, to: usize) -> (r: Vec<char>)
    requires
        from <= to <= s.len(),
    ensures
        r@ == s@.subrange(from as int, to as int),
{
    let mut r: Vec<char> = Vec::new();
    append_range(&mut r, s, from, to);
    r
}

/// Splits `s` into its lines.
pub fn split_lines(s: &Vec<char>) -> (r: Vec<Vec<char>>)
    ensures
        texts(r@) == lines(s@),
{
    let mut r: Vec<Vec<char>> = Vec::new();
    let mut feed: Vec<char> = Vec::new();
    feed.push('\n');
    let mut i: usize = 0;
    while i < s.len()
        invariant
            i <= s.len(),
            feed@ == line_feed(),
            texts(r@) + lines_from(s@, i as int) == lines(s@),
        decreases s.len() - i,
    {
        let ghost before = texts(r@);
        match find(s, &feed, i) {
            Some(e) => {
                proof {
                    lemma_first_occurrence(s@, line_feed(), i as int);
                }
                let end: usize = if e > i && s[e - 1] == '\r' {
                    e - 1
                } else {
                    e
                };
                let line = slice(s, i, end);
                proof {
                    assert(line@ =~= strip_carriage_return(s@.subrange(i as int, e as int)));
                }
                r.push(line);
                proof {
                    assert(texts(r@) =~= before.push(line@));
                    assert(before.push(line@) + lines_from(s@, e + 1) =~= before + lines_from(
                        s@,
                        i as int,
                    ));
                }
                i = e + 1;
            },
            None => {
                let line = slice(s, i, s.len());
                r.push(line);
                proof {
                    assert(texts(r@) =~= before.push(line@));
                    assert(before.push(line@) + lines_from(s@, s.len() as int) =~= before
                        + lines_from(s@, i as int));
                }
                i = s.len();
            },
        }
    }
    proof {
        assert(texts(r@) + lines_from(s@, i as int) =~= texts(r@));
    }
    r
}

/// Puts `lines` together, with one line feed between neighbours.
pub fn join(lines: &Vec<Vec<char>>) -> (r: Vec<char>)
    ensures
        r@ == join_lines(texts(lines@)),
{
    let mut r: Vec<char> = Vec::new();
    let mut i: usize = 0;
    while i < lines.len()
        invariant
            i <= lines.len(),
            r@ == join_lines(texts(lines@).take(i as int)),
        decreases lines.len() - i,
    {
        let ghost done = texts(lines@).take(i as int);
        let ghost next = texts(lines@).take(i + 1);
        proof {
            assert(next.drop_last() =~= done);
            assert(next.last() == lines[i as int]@);
        }
        if i > 0 {
            r.push('\n');
            proof {
                assert(r@ =~= join_lines(done) + line_feed());
            }
        }
        append(&mut r, &lines[i]);
        i += 1;
    }
    proof {
        assert(texts(lines@).take(i as int) =~= texts(lines@));
    }
    r
}

} // verus!
