use proxima_backend::text::{
    char_is_whitespace, chars_of, contains_char, contains_text, decimal_text, hundredths_text,
    join_from, lines_of, parse_count_text, same_text, split_text, string_of, trim_char_text,
    trim_text, trimmed_lines_of, words_of,
};

#[test]
fn whitespace_matches_std_on_every_char() {
    let mut c = 0u32;
    while c <= 0x10FFFF {
        if let Some(ch) = char::from_u32(c) {
            assert_eq!(char_is_whitespace(ch), ch.is_whitespace(), "char {:x}", c);
        }
        c += 1;
    }
}

#[test]
fn trim_removes_surrounding_whitespace() {
    assert_eq!(trim_text("  a b \n"), "a b");
    assert_eq!(trim_text(""), "");
    assert_eq!(trim_text(" \t\r\n"), "");
    assert_eq!(trim_text("x"), "x");
    assert_eq!(trim_text("\u{3000}é \u{a0}"), "é");
}

#[test]
fn trim_matches_std() {
    for s in ["", " ", "a", " a", "a ", "  a  b  ", "\n\ta\r\n", "ab\u{2028}"] {
        assert_eq!(trim_text(s), s.trim());
    }
}

#[test]
fn chars_round_trip() {
    let v = chars_of("héllo");
    assert_eq!(v, vec!['h', 'é', 'l', 'l', 'o']);
    assert_eq!(string_of(&v, 1, 4), "éll");
    assert_eq!(string_of(&v, 2, 2), "");
}

#[test]
fn contains_finds_substrings() {
    assert!(contains_text("a<call>b", "<call>"));
    assert!(!contains_text("a<cal>b", "<call>"));
    assert!(contains_text("abc", ""));
    assert!(contains_text("", ""));
    assert!(!contains_text("", "a"));
    assert!(contains_text("aab", "ab"));
    assert!(!contains_text("ab", "abc"));
    assert!(contains_char("a=b", '='));
    assert!(!contains_char("ab", '='));
}

#[test]
fn same_text_compares_characters() {
    assert!(same_text("run", "run"));
    assert!(!same_text("run", "runs"));
    assert!(!same_text("run", "ruN"));
    assert!(same_text("", ""));
}

#[test]
fn split_matches_std() {
    for s in ["", "a", "a,b", "a,", ",a", ",", "a,,b", "1 < 2"] {
        let expected: Vec<String> = s.split(',').map(|p| p.to_string()).collect();
        assert_eq!(split_text(s, ','), expected);
    }
    assert_eq!(split_text("1 < 2", '<'), vec!["1 ".to_string(), " 2".to_string()]);
}

#[test]
fn lines_match_std() {
    for s in ["", "a", "a\n", "a\nb", "a\r\nb", "a\n\nb", "\n", "a\r", "a\r\n", "\r\n\r\n", "a\rb\n"] {
        let expected: Vec<String> = s.lines().map(|p| p.to_string()).collect();
        assert_eq!(lines_of(s), expected, "input {:?}", s);
    }
}

#[test]
fn trimmed_lines_match_the_std_chain() {
    for s in ["", "  ", "a", " a \n b ", "key\nv1\nv2\n", "\n\nx\r\n y \r\n\n", "a\n\nb"] {
        let expected: Vec<String> = s.trim().lines().map(|l| l.trim().to_string()).collect();
        assert_eq!(trimmed_lines_of(s), expected, "input {:?}", s);
    }
}

#[test]
fn words_match_split_whitespace() {
    for s in ["", " ", "a", "  a  ", "3 rust  verification", "a\tb\nc", "\u{a0}x\u{3000}y"] {
        let expected: Vec<String> = s.split_whitespace().map(|p| p.to_string()).collect();
        assert_eq!(words_of(s), expected, "input {:?}", s);
    }
}

#[test]
fn join_puts_separator_between() {
    let v = vec!["a".to_string(), "b".to_string(), "c".to_string()];
    assert_eq!(join_from(&v, 0, ", "), "a, b, c");
    assert_eq!(join_from(&v, 1, "\n"), "b\nc");
    assert_eq!(join_from(&v, 2, "\n"), "c");
    assert_eq!(join_from(&v, 3, "\n"), "");
}

#[test]
fn trim_char_matches_trim_matches() {
    for s in ["", "\"", "\"a\"", "\"\"a b\"", "a\"b", "\"\"\""] {
        assert_eq!(trim_char_text(s, '"'), s.trim_matches('"'));
    }
}

#[test]
fn decimal_matches_to_string() {
    for n in [0u64, 1, 9, 10, 11, 99, 100, 12345, 1_000_000_007, u64::MAX] {
        assert_eq!(decimal_text(n), n.to_string());
    }
}

#[test]
fn parse_count_matches_std_parse() {
    for s in ["", "0", "7", "+7", "007", "20", "21", "-1", "1 ", " 1", "1a", "+", "18446744073709551615", "18446744073709551616", "99999999999999999999999"] {
        assert_eq!(parse_count_text(s), s.parse::<usize>().ok(), "input {:?}", s);
    }
}

#[test]
fn hundredths_are_written_without_zeros_at_the_end() {
    assert_eq!(hundredths_text(0), "0");
    assert_eq!(hundredths_text(1), "0.01");
    assert_eq!(hundredths_text(10), "0.1");
    assert_eq!(hundredths_text(99), "0.99");
    assert_eq!(hundredths_text(100), "1");
    assert_eq!(hundredths_text(101), "1.01");
    assert_eq!(hundredths_text(1230), "12.3");
    assert_eq!(hundredths_text(u64::MAX), "184467440737095516.15");
}
