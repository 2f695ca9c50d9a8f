use abgen_serve::text::{
    before_first_char, eq_ignore_ascii_case, first_two_tokens, rsplit_once_char, split_char,
    split_once_char, trim_end_whitespace, trim_matches, trim_whitespace,
};

#[test]
fn split_like_std() {
    for (s, c) in [("a/b//c", '/'), ("", '/'), ("/", '/'), ("abc", '/'), ("x_y_z", '_')] {
        let expected: Vec<String> = s.split(c).map(String::from).collect();
        assert_eq!(split_char(s, c), expected);
    }
}

#[test]
fn split_once_like_std() {
    for s in ["k:v:w", "none", ":x", "é:ü"] {
        let expected = s.split_once(':').map(|(a, b)| (a.to_string(), b.to_string()));
        assert_eq!(split_once_char(s, ':'), expected);
        let expected_r = s.rsplit_once(':').map(|(a, b)| (a.to_string(), b.to_string()));
        assert_eq!(rsplit_once_char(s, ':'), expected_r);
    }
}

#[test]
fn trims_like_std() {
    for s in ["  a b \r\n", "\u{3000}x\u{85}", "", "   ", "q"] {
        assert_eq!(trim_whitespace(s), s.trim());
        assert_eq!(trim_end_whitespace(s), s.trim_end());
    }
    for s in ["//a/b//", "/", "a", ""] {
        assert_eq!(trim_matches(s, '/'), s.trim_matches('/'));
    }
}

#[test]
fn before_query() {
    assert_eq!(before_first_char("/a/b?x=1?y", '?'), "/a/b");
    assert_eq!(before_first_char("/a", '?'), "/a");
}

#[test]
fn ascii_case_equality_like_std() {
    for (a, b) in [("Content-Length", "content-length"), ("É", "é"), ("ab", "abc"), ("X", "x")] {
        assert_eq!(eq_ignore_ascii_case(a, b), a.eq_ignore_ascii_case(b));
    }
}

#[test]
fn tokens_like_split_whitespace() {
    for s in ["GET /p HTTP/1.1", "  one", "", "a\tb\nc"] {
        let mut it = s.split_whitespace();
        let expected = (it.next().map(String::from), it.next().map(String::from));
        assert_eq!(first_two_tokens(s), expected);
    }
}
