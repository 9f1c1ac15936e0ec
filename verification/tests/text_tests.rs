use zr_proxy::text::{
    first_trimmed_line,
    chars_equal, chars_of, contains_chars, is_white_space_char, join_strings, split_chars,
    string_from_chars, trim_bounds, trimmed_nonblank_lines,
};

fn chars(s: &str) -> Vec<char> {
    s.chars().collect()
}

#[test]
fn chars_of_keeps_every_character() {
    assert_eq!(chars_of("a代b"), vec!['a', '代', 'b']);
    assert!(chars_of("").is_empty());
}

#[test]
fn split_chars_keeps_empty_pieces() {
    let pieces = split_chars(&chars("a//b/"), '/');
    assert_eq!(pieces, vec![chars("a"), vec![], chars("b"), vec![]]);
    assert_eq!(split_chars(&vec![], '/'), vec![Vec::<char>::new()]);
}

#[test]
fn trimmed_lines_drop_blank_ones() {
    assert_eq!(
        trimmed_nonblank_lines(" A=1 \r\n\n \t \nB=2\n"),
        vec!["A=1".to_string(), "B=2".to_string()]
    );
    assert!(trimmed_nonblank_lines("").is_empty());
    assert!(trimmed_nonblank_lines("\n\n").is_empty());
}

#[test]
fn trim_strips_unicode_white_space() {
    assert_eq!(trimmed_nonblank_lines("\u{3000}X=1\u{a0}"), vec!["X=1".to_string()]);
    assert!(is_white_space_char('\u{2009}'));
    assert!(is_white_space_char('\u{85}'));
    assert!(!is_white_space_char('x'));
    assert!(!is_white_space_char('\u{200B}'));
}

#[test]
fn trim_bounds_of_a_range() {
    let v = chars("  ab c ");
    assert_eq!(trim_bounds(&v, 0, v.len()), (2, 6));
    assert_eq!(trim_bounds(&v, 0, 2), (2, 2));
    assert_eq!(string_from_chars(&v, 2, 6), "ab c");
}

#[test]
fn join_puts_the_separator_between() {
    let parts = vec!["a".to_string(), "b".to_string(), "c".to_string()];
    assert_eq!(join_strings(&parts, ", "), "a, b, c");
    assert_eq!(join_strings(&vec!["x".to_string()], "\n"), "x");
    assert_eq!(join_strings(&Vec::new(), "\n"), "");
}

#[test]
fn substring_search() {
    assert!(contains_chars(&chars("google chrome"), &chars("chr")));
    assert!(contains_chars(&chars("abc"), &chars("")));
    assert!(contains_chars(&chars("abc"), &chars("abc")));
    assert!(!contains_chars(&chars("abc"), &chars("abcd")));
    assert!(!contains_chars(&chars("abcabd"), &chars("abe")));
    assert!(contains_chars(&chars("abcabd"), &chars("abd")));
}

#[test]
fn equality_of_characters() {
    assert!(chars_equal(&chars("ab"), &chars("ab")));
    assert!(!chars_equal(&chars("ab"), &chars("abc")));
    assert!(!chars_equal(&chars("ab"), &chars("ac")));
}

#[test]
fn first_non_blank_line() {
    assert_eq!(first_trimmed_line("\n  1.2.3 \n4"), Some("1.2.3".to_string()));
    assert_eq!(first_trimmed_line(" \n\t"), None);
}
