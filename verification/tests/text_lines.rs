use markdown_html::lines::lines_of;
use markdown_html::text::{
    chars_of, copy_range, is_blank_line, is_whitespace, push_chars, string_of, trim_range,
};

fn chars(s: &str) -> Vec<char> {
    s.chars().collect()
}

fn lines(s: &str) -> Vec<String> {
    lines_of(&chars(s)).iter().map(|line| line.iter().collect::<String>()).collect()
}

#[test]
fn chars_of_gives_the_characters() {
    assert_eq!(chars_of("aé\u{1F600}b"), vec!['a', 'é', '\u{1F600}', 'b']);
    assert_eq!(chars_of(""), Vec::<char>::new());
}

#[test]
fn string_of_gives_the_range() {
    let v = chars("héllo wörld");
    assert_eq!(string_of(&v, 0, v.len()), "héllo wörld");
    assert_eq!(string_of(&v, 1, 5), "éllo");
    assert_eq!(string_of(&v, 3, 3), "");
}

#[test]
fn copy_range_gives_the_range() {
    let v = chars("abcdef");
    assert_eq!(copy_range(&v, 2, 5), vec!['c', 'd', 'e']);
    assert_eq!(copy_range(&v, 6, 6), Vec::<char>::new());
}

#[test]
fn push_chars_appends() {
    let mut s = "ab".to_string();
    push_chars(&mut s, &chars("xyzw"), 1, 3);
    assert_eq!(s, "abyz");
}

#[test]
fn whitespace_is_unicode_white_space() {
    let mut c: u32 = 0;
    while c <= 0x10FFFF {
        if let Some(ch) = char::from_u32(c) {
            assert_eq!(is_whitespace(ch), ch.is_whitespace());
        }
        c += 1;
    }
}

#[test]
fn trim_range_agrees_with_trim() {
    let samples = ["", " ", "a", "  a b \t", "\u{3000}x\u{a0}", "\r\n x", "x \n", " \t\r\n", "ab"];
    for s in samples {
        let v = chars(s);
        let (a, b) = trim_range(&v, 0, v.len());
        assert_eq!(string_of(&v, a, b), s.trim());
    }
    let v = chars("xx  a  yy");
    assert_eq!(trim_range(&v, 2, 7), (4, 5));
    assert_eq!(trim_range(&v, 2, 4), (4, 4));
}

#[test]
fn blank_lines_are_white_space_only() {
    assert!(is_blank_line(&chars("")));
    assert!(is_blank_line(&chars(" \t\u{a0}")));
    assert!(!is_blank_line(&chars(" a ")));
    assert!(!is_blank_line(&chars("-")));
}

#[test]
fn lines_of_agrees_with_std_lines() {
    let samples = [
        "",
        "a",
        "a\n",
        "a\nb",
        "a\n\nb\n",
        "\n",
        "\n\n",
        "a\r\nb\r\n",
        "a\r",
        "a\rb\n",
        "\r\n",
        "a\r\r\nb",
        "one\ntwo\r\nthree\n\n",
    ];
    for s in samples {
        let expected: Vec<String> = s.lines().map(|l| l.to_string()).collect();
        assert_eq!(lines(s), expected);
    }
}

#[test]
fn lines_of_examples() {
    assert_eq!(lines(""), Vec::<String>::new());
    assert_eq!(lines("a\nb\n"), vec!["a", "b"]);
    assert_eq!(lines("a\r\n\r\nb"), vec!["a", "", "b"]);
    assert_eq!(lines("a\r"), vec!["a\r"]);
}
