use shell_core::text::{
    chars_of, decimal_right_aligned, is_whitespace, join_from, parse_usize, same_text, split_on,
    starts_with, tail, trimmed, words_of,
};

fn strings(v: &[&str]) -> Vec<String> {
    v.iter().map(|s| s.to_string()).collect()
}

#[test]
fn whitespace_matches_std_for_every_char() {
    for c in (0u32..=0x10FFFF).filter_map(char::from_u32) {
        assert_eq!(is_whitespace(c), c.is_whitespace(), "{:?}", c);
    }
}

#[test]
fn parse_usize_matches_std() {
    let cases = [
        "", "+", "-", "0", "7", "+7", "-7", "007", "12a", " 1", "1 ", "42",
        "18446744073709551615", "18446744073709551616", "99999999999999999999999", "+0", "++1",
        "\u{0663}",
    ];
    for c in cases {
        assert_eq!(parse_usize(c), c.parse::<usize>().ok(), "{:?}", c);
    }
}

#[test]
fn trimmed_matches_std() {
    for c in ["", "  ", " a ", "\t\na b\u{3000}", "x", "\u{A0}y\u{2009}"] {
        assert_eq!(trimmed(c), c.trim());
    }
}

#[test]
fn words_match_split_whitespace() {
    for c in ["", "   ", "a", " a  b\tc\n", "echo  hi", "x\u{2003}y"] {
        let expected: Vec<String> = c.split_whitespace().map(String::from).collect();
        assert_eq!(words_of(c), expected);
    }
}

#[test]
fn split_matches_std() {
    for c in ["", ":", "/bin:/usr/bin", "a::b:", "no-delimiter"] {
        let expected: Vec<String> = c.split(':').map(String::from).collect();
        assert_eq!(split_on(c, ':'), expected);
    }
}

#[test]
fn join_split_round_trip() {
    for c in ["", "a\nb", "\n\n", "x\ny\n"] {
        let parts = split_on(c, '\n');
        assert_eq!(join_from(&parts, 0, "\n"), c);
    }
}

#[test]
fn join_from_skips_leading_parts() {
    let parts = strings(&["a", "b", "c"]);
    assert_eq!(join_from(&parts, 0, ", "), "a, b, c");
    assert_eq!(join_from(&parts, 1, "-"), "b-c");
    assert_eq!(join_from(&parts, 3, "-"), "");
}

#[test]
fn right_aligned_numbers_match_format() {
    for n in [0usize, 1, 9, 10, 99999, 100000, 1234567, usize::MAX] {
        assert_eq!(decimal_right_aligned(n, 5), format!("{:>5}", n));
    }
}

#[test]
fn text_comparisons() {
    assert!(same_text("cd", "cd"));
    assert!(!same_text("cd", "c"));
    assert!(!same_text("ab", "ba"));
    assert!(starts_with("history", "hist"));
    assert!(starts_with("x", ""));
    assert!(!starts_with("ec", "echo"));
    assert_eq!(chars_of("héllo"), vec!['h', 'é', 'l', 'l', 'o']);
    assert_eq!(tail(&strings(&["cmd", "a", "b"])), strings(&["a", "b"]));
}
