use phone::text::{
    chars_of, decimal_string, is_whitespace, line_ranges, parse_range, range_contains, range_is,
    string_of, trim_range, word_ranges,
};

fn pieces(v: &Vec<char>, r: &[(usize, usize)]) -> Vec<String> {
    r.iter().map(|&(a, b)| v[a..b].iter().collect()).collect()
}

#[test]
fn chars_of_keeps_every_character() {
    assert_eq!(chars_of("aé\tz"), vec!['a', 'é', '\t', 'z']);
    assert_eq!(chars_of(""), Vec::<char>::new());
}

#[test]
fn string_of_takes_the_range() {
    let v = chars_of("hello world");
    assert_eq!(string_of(&v, 6, 11), "world");
    assert_eq!(string_of(&v, 3, 3), "");
}

#[test]
fn whitespace_matches_the_standard_library() {
    for c in ['\t', '\n', '\u{0B}', '\u{0C}', '\r', ' ', '\u{85}', '\u{A0}', '\u{1680}', '\u{2000}', '\u{200A}', '\u{2028}', '\u{2029}', '\u{202F}', '\u{205F}', '\u{3000}', 'a', '0', '\u{200B}', '\u{FEFF}', '_'] {
        assert_eq!(is_whitespace(c), c.is_whitespace(), "{:?}", c);
    }
}

#[test]
fn trim_range_matches_str_trim() {
    for s in ["  a b  ", "\r\n42\n", "", "   ", "x", "\u{3000}y\u{A0}"] {
        let v = chars_of(s);
        let (a, b) = trim_range(&v, 0, v.len());
        assert_eq!(string_of(&v, a, b), s.trim());
    }
}

#[test]
fn lines_match_str_lines() {
    for s in ["a\nb", "a\r\nb\r\n", "", "\n", "a\n\nb", "x\r", "one\rtwo\n", "a\n\n"] {
        let v = chars_of(s);
        let r = line_ranges(&v);
        let expected: Vec<String> = s.lines().map(|l| l.to_string()).collect();
        assert_eq!(pieces(&v, &r), expected, "{:?}", s);
    }
}

#[test]
fn words_match_split_whitespace() {
    for s in ["  a  bc\td\n", "", "   ", "word", "x\u{A0}y"] {
        let v = chars_of(s);
        let r = word_ranges(&v, 0, v.len());
        let expected: Vec<String> = s.split_whitespace().map(|w| w.to_string()).collect();
        assert_eq!(pieces(&v, &r), expected, "{:?}", s);
    }
}

#[test]
fn words_of_a_sub_range() {
    let v = chars_of("skip| a b |skip");
    let r = word_ranges(&v, 5, 10);
    assert_eq!(pieces(&v, &r), vec!["a".to_string(), "b".to_string()]);
}

#[test]
fn parse_range_matches_str_parse() {
    for s in ["0", "42", "+7", "-1", "", "+", "4294967295", "4294967296", "12a", "007", " 1"] {
        let v = chars_of(s);
        let got = parse_range(&v, 0, v.len(), u32::MAX as u64);
        assert_eq!(got, s.parse::<u32>().ok().map(|n| n as u64), "{:?}", s);
    }
}

#[test]
fn decimal_string_matches_to_string() {
    for n in [0u64, 7, 10, 99, 100, 1234567890, u64::MAX] {
        assert_eq!(decimal_string(n), n.to_string());
    }
}

#[test]
fn range_is_and_contains() {
    let v = chars_of("adb usb:1-2");
    let pat = chars_of("usb:");
    assert!(range_contains(&v, 0, v.len(), &pat));
    assert!(!range_contains(&v, 0, 6, &pat));
    assert!(range_is(&v, 4, 8, &pat));
    assert!(!range_is(&v, 3, 7, &pat));
    assert!(range_contains(&v, 2, 2, &Vec::new()));
}
