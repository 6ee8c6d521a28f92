use thener::annotations::{expand_line_in, expand_tags_in, TagKind};
use thener::md_compiler::MarkdownPreprocessor;
use thener::text::{from_chars, to_chars};

fn expand(line: &str) -> String {
    MarkdownPreprocessor::new().resolve_tags(line)
}

#[test]
fn expands_ids_classes_and_drops_the_comment() {
    assert_eq!(
        expand("@#intro Some text @.highlight here @// note"),
        "<span id='intro'></span> Some text <span class='highlight'></span> here "
    );
}

#[test]
fn the_functions_on_characters_agree_with_the_methods() {
    let line = "@#intro Some text @.highlight here @// note";
    assert_eq!(from_chars(&expand_line_in(&to_chars(line))), expand(line));
    assert_eq!(
        from_chars(&expand_tags_in(&to_chars(line), TagKind::Class)),
        MarkdownPreprocessor::new().resolve_inline_tag(line, TagKind::Class)
    );
}

#[test]
fn one_kind_of_tag_is_expanded_at_a_time() {
    let p = MarkdownPreprocessor::new();
    assert_eq!(
        p.resolve_inline_tag("@#a @.b @// c", TagKind::Id),
        "<span id='a'></span> @.b @// c"
    );
    assert_eq!(
        p.resolve_inline_tag("@#a @.b @// c", TagKind::Class),
        "@#a <span class='b'></span> @// c"
    );
}

#[test]
fn a_line_without_annotations_stays() {
    assert_eq!(expand(""), "");
    assert_eq!(expand("plain text, with an @ and a # and a ."), "plain text, with an @ and a # and a .");
    assert_eq!(expand("mail@example.org"), "mail@example.org");
}

#[test]
fn a_marker_at_the_end_of_the_line_stays() {
    assert_eq!(expand("see @#"), "see @#");
    assert_eq!(expand("@."), "@.");
    assert_eq!(expand("@#a @#"), "<span id='a'></span> @#");
    assert_eq!(from_chars(&expand_tags_in(&to_chars("@."), TagKind::Class)), "@.");
}

#[test]
fn a_marker_before_whitespace_gives_an_empty_name() {
    assert_eq!(expand("@# x"), "<span id=''></span> x");
    assert_eq!(expand("@.\ty"), "<span class=''></span>\ty");
}

#[test]
fn every_tag_of_a_line_is_expanded() {
    assert_eq!(
        expand("@#a @#b @.c @.d"),
        "<span id='a'></span> <span id='b'></span> <span class='c'></span> <span class='d'></span>"
    );
    assert_eq!(expand("x@#y"), "x<span id='y'></span>");
}

#[test]
fn a_name_reaches_to_the_next_whitespace_of_any_kind() {
    assert_eq!(expand("@#a\tb"), "<span id='a'></span>\tb");
    assert_eq!(expand("@#a\u{a0}b"), "<span id='a'></span>\u{a0}b");
    assert_eq!(expand("@#a\u{2003}b"), "<span id='a'></span>\u{2003}b");
    assert_eq!(expand("@#añ-b_c.d,e"), "<span id='añ-b_c.d,e'></span>");
}

#[test]
fn what_an_expansion_wrote_is_not_searched_again_for_the_same_tag() {
    assert_eq!(expand("@#@#x"), "<span id='@#x'></span>");
    assert_eq!(expand("@#a@#b c"), "<span id='a@#b'></span> c");
}

#[test]
fn ids_are_expanded_before_classes() {
    assert_eq!(expand("@.x@#y"), "<span class='x<span'></span> id='y'></span>");
    assert_eq!(expand("@#a@.b"), "<span id='a<span class='b'></span>'></span>");
}

#[test]
fn the_comment_is_dropped_after_the_tags_are_expanded() {
    assert_eq!(expand("text @// rest @#a"), "text ");
    assert_eq!(expand("@// all"), "");
    assert_eq!(expand("a @/ b"), "a @/ b");
    assert_eq!(expand("@#x@//y z"), "<span id='x");
    assert_eq!(expand("a@//b@//c"), "a");
}

#[test]
fn expanding_an_expanded_line_changes_nothing() {
    for line in [
        "@#intro Some text @.highlight here @// note",
        "",
        "plain",
        "@#a @.b",
        "trailing @#",
        "trailing @.",
        "@# @. x",
        "a @// b",
        "@.x@#y z",
    ] {
        let once = expand(line);
        assert_eq!(expand(&once), once, "{:?}", line);
    }
}

#[test]
fn a_name_that_holds_a_marker_is_expanded_again() {
    let once = expand("@#a@#b");
    assert_eq!(once, "<span id='a@#b'></span>");
    assert_eq!(expand(&once), "<span id='a<span id='b'></span>'></span>");
}
