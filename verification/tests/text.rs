use thener::text::{
    char_is_whitespace, find, from_chars, join, matches_at, scan_token, split_lines, to_chars,
};

fn lines_of(text: &str) -> Vec<String> {
    split_lines(&to_chars(text)).iter().map(from_chars).collect()
}

fn std_lines(text: &str) -> Vec<String> {
    text.lines().map(|l| l.to_string()).collect()
}

#[test]
fn whitespace_is_what_std_calls_whitespace() {
    for n in 0..=0x10FFFFu32 {
        if let Some(c) = char::from_u32(n) {
            assert_eq!(char_is_whitespace(c), c.is_whitespace(), "U+{:04X}", n);
        }
    }
}

#[test]
fn characters_go_to_a_vector_and_back() {
    assert_eq!(to_chars("añ→z"), vec!['a', 'ñ', '→', 'z']);
    assert_eq!(from_chars(&vec!['a', 'ñ', '→', 'z']), "añ→z");
    assert_eq!(to_chars(""), Vec::<char>::new());
    assert_eq!(from_chars(&Vec::new()), "");
}

#[test]
fn find_gives_the_first_occurrence_at_or_after_the_start() {
    let s = to_chars("abcabcab");
    assert_eq!(find(&s, &to_chars("bc"), 0), Some(1));
    assert_eq!(find(&s, &to_chars("bc"), 1), Some(1));
    assert_eq!(find(&s, &to_chars("bc"), 2), Some(4));
    assert_eq!(find(&s, &to_chars("bc"), 5), None);
    assert_eq!(find(&s, &to_chars("abcabcabc"), 0), None);
    assert_eq!(find(&s, &to_chars("ab"), 6), Some(6));
    assert_eq!(find(&s, &to_chars("ab"), 7), None);
    assert_eq!(find(&s, &to_chars("ab"), 9), None);
}

#[test]
fn the_empty_pattern_stands_everywhere() {
    let s = to_chars("ab");
    assert_eq!(find(&s, &Vec::new(), 0), Some(0));
    assert_eq!(find(&s, &Vec::new(), 2), Some(2));
    assert_eq!(find(&s, &Vec::new(), 3), None);
    assert!(matches_at(&s, &Vec::new(), 2));
    assert!(!matches_at(&s, &Vec::new(), 3));
}

#[test]
fn matches_at_compares_in_place() {
    let s = to_chars("hello");
    assert!(matches_at(&s, &to_chars("hel"), 0));
    assert!(matches_at(&s, &to_chars("llo"), 2));
    assert!(!matches_at(&s, &to_chars("llo"), 3));
    assert!(!matches_at(&s, &to_chars("hex"), 0));
    assert!(!matches_at(&s, &to_chars("hello!"), 0));
}

#[test]
fn a_token_ends_at_whitespace_or_at_the_end() {
    let s = to_chars("ab cd\te\u{3000}f");
    assert_eq!(scan_token(&s, 0), 2);
    assert_eq!(scan_token(&s, 2), 2);
    assert_eq!(scan_token(&s, 3), 5);
    assert_eq!(scan_token(&s, 6), 7);
    assert_eq!(scan_token(&s, 8), 9);
    assert_eq!(scan_token(&s, 9), 9);
    assert_eq!(scan_token(&s, 10), 9);
}

#[test]
fn lines_end_at_line_feeds() {
    assert_eq!(lines_of(""), Vec::<String>::new());
    assert_eq!(lines_of("a"), vec!["a"]);
    assert_eq!(lines_of("a\n"), vec!["a"]);
    assert_eq!(lines_of("a\nb"), vec!["a", "b"]);
    assert_eq!(lines_of("a\n\nb\n"), vec!["a", "", "b"]);
    assert_eq!(lines_of("\n"), vec![""]);
    assert_eq!(lines_of("\n\n"), vec!["", ""]);
}

#[test]
fn a_carriage_return_before_a_line_feed_belongs_to_the_line_end() {
    assert_eq!(lines_of("a\r\nb\r\n"), vec!["a", "b"]);
    assert_eq!(lines_of("a\r"), vec!["a\r"]);
    assert_eq!(lines_of("a\r\r\n"), vec!["a\r"]);
    assert_eq!(lines_of("a\rb\n"), vec!["a\rb"]);
    assert_eq!(lines_of("\r\n"), vec![""]);
}

#[test]
fn lines_are_the_lines_of_std() {
    let pieces = ["", "a", "\n", "\r", "\r\n", "bc", " ", "\n\n", "é"];
    for a in pieces {
        for b in pieces {
            for c in pieces {
                for d in pieces {
                    let text = format!("{}{}{}{}", a, b, c, d);
                    assert_eq!(lines_of(&text), std_lines(&text), "{:?}", text);
                }
            }
        }
    }
}

#[test]
fn join_puts_one_line_feed_between_lines() {
    let lines = |v: &[&str]| v.iter().map(|l| to_chars(l)).collect::<Vec<_>>();
    assert_eq!(from_chars(&join(&lines(&[]))), "");
    assert_eq!(from_chars(&join(&lines(&["a"]))), "a");
    assert_eq!(from_chars(&join(&lines(&["a", "b"]))), "a\nb");
    assert_eq!(from_chars(&join(&lines(&["", ""]))), "\n");
    assert_eq!(from_chars(&join(&lines(&["a", "", "b"]))), "a\n\nb");
}
