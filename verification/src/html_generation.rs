//! The template into which the composed markup is put.

use crate::text::{
    append, append_range, find, first_occurrence, from_chars, lemma_first_occurrence, to_chars,
};
use vstd::prelude::*;

verus! {

/// What stands in a template in place of the value of the variable `name`.
pub open spec fn placeholder(name: Seq<char>) -> Seq<char> {
    seq!['#', '{'] + name + seq!['}', '#']
}

/// The part of `s` from index `from` on with `value` in place of every
/// occurrence of `pat`, taken from left to right: the search goes on behind
/// an occurrence, so occurrences do not overlap.
pub open spec fn fill_from(s: Seq<char>, pat: Seq<char>, value: Seq<char>, from: int) -> Seq<char>
    decreases s.len() - from,
{
    match first_occurrence(s, pat, from) {
        Some(p) => if pat.len() > 0 {
            proof {
                lemma_first_occurrence(s, pat, from);
            }
            s.subrange(from, p) + value + fill_from(s, pat, value, p + pat.len())
        } else {
            s.subrange(from, s.len() as int)
        },
        None => s.subrange(from, s.len() as int),
    }
}

/// `content` with `value` in place of every placeholder of the variable
/// `name`.
pub open spec fn resolved(name: Seq<char>, content: Seq<char>, value: Seq<char>) -> Seq<char> {
    fill_from(content, placeholder(name), value, 0)
}

/// The variable whose placeholder stands for the composed markup.
pub open spec fn content_variable() -> Seq<char> {
    "contenido"@
}

/// Puts `variable_value` in place of every placeholder of the variable
/// `variable_name` in `content`.
pub fn resolve_variable(variable_name: &str, content: &str, variable_value: &str) -> (r: String)
    ensures
        r@ == resolved(variable_name@, content@, variable_value@),
{
    let mut pat: Vec<char> = Vec::new();
    pat.push('#');
    pat.push('{');
    append(&mut pat, &to_chars(variable_name));
    pat.push('}');
    pat.push('#');
    proof {
        assert(pat@ =~= placeholder(variable_name@));
    }
    let s = to_chars(content);
    let value = to_chars(variable_value);
    let mut out: Vec<char> = Vec::new();
    let mut i: usize = 0;
    let mut done = false;
    while !done
        invariant
            i <= s.len(),
            pat@.len() > 0,
            !done ==> out@ + fill_from(s@, pat@, value@, i as int) == fill_from(
                s@,
                pat@,
                value@,
                0,
            ),
            done ==> out@ == fill_from(s@, pat@, value@, 0),
        decreases (if done { 0 } else { 1 + s.len() - i }),
    {
        let ghost before = out@;
        proof {
            lemma_first_occurrence(s@, pat@, i as int);
        }
        match find(&s, &pat, i) {
            None => {
                append_range(&mut out, &s, i, s.len());
                done = true;
            },
            Some(p) => {
                append_range(&mut out, &s, i, p);
                append(&mut out, &value);
                proof {
                    assert(out@ + fill_from(s@, pat@, value@, p + pat@.len()) =~= before
                        + fill_from(s@, pat@, value@, i as int));
                }
                i = p + pat.len();
            },
        }
    }
    from_chars(&out)
}

/// The template `template` with the markup `content_html` in place of
/// every placeholder of the variable `contenido`.
pub fn resolve_template(template: &str, content_html: &str) -> (r: String)
    ensures
        r@ == resolved(content_variable(), template@, content_html@),
{
    resolve_variable("contenido", template, content_html)
}

} // verus!
