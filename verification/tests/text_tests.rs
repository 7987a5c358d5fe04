use onnx_http::text::{
    chars_of, debug_list, decimal_string, eq_ignore_ascii_case, pad_left, pad_right,
    parse_usize, space_string, str_eq, str_lt,
};

#[test]
fn chars_of_keeps_characters() {
    assert_eq!(chars_of("aé✓"), vec!['a', 'é', '✓']);
    assert!(chars_of("").is_empty());
}

#[test]
fn str_eq_compares_characters() {
    assert!(str_eq("abc", "abc"));
    assert!(!str_eq("abc", "abd"));
    assert!(!str_eq("abc", "ab"));
    assert!(str_eq("", ""));
}

#[test]
fn eq_ignore_ascii_case_folds_only_ascii_letters() {
    assert!(eq_ignore_ascii_case("Hello-World", "hELLO-wORLD"));
    assert!(!eq_ignore_ascii_case("hello", "hellp"));
    assert!(!eq_ignore_ascii_case("hello", "hell"));
    assert!(!eq_ignore_ascii_case("É", "é"));
    assert!(eq_ignore_ascii_case("É", "É"));
    assert!(!eq_ignore_ascii_case("[", "{"));
}

#[test]
fn str_lt_is_lexicographic_by_code_point() {
    assert!(str_lt("a", "b"));
    assert!(str_lt("", "a"));
    assert!(str_lt("ab", "b"));
    assert!(str_lt("ab", "abc"));
    assert!(str_lt("B", "a"));
    assert!(!str_lt("a", "a"));
    assert!(!str_lt("b", "ab"));
    let mut v = vec!["bge-m3", "all-mpnet-base-v2", "Zeta", "all-MiniLM-L6-v2"];
    v.sort();
    for w in v.windows(2) {
        assert!(str_lt(w[0], w[1]));
    }
}

#[test]
fn decimal_string_writes_numbers() {
    assert_eq!(decimal_string(0), "0");
    assert_eq!(decimal_string(7), "7");
    assert_eq!(decimal_string(1024), "1024");
    assert_eq!(decimal_string(u64::MAX), u64::MAX.to_string());
}

#[test]
fn padding_matches_format_width() {
    assert_eq!(space_string(3), "   ");
    assert_eq!(pad_right("ab", 5), format!("{:<5}", "ab"));
    assert_eq!(pad_left("ab", 5), format!("{:>5}", "ab"));
    assert_eq!(pad_right("abcdef", 3), "abcdef");
    assert_eq!(pad_left("abcdef", 3), "abcdef");
    assert_eq!(pad_right("é", 3), format!("{:<3}", "é"));
}

#[test]
fn parse_usize_matches_std() {
    for s in ["0", "7", "+12", "007", "", "+", "-1", "1a", " 1", "18446744073709551615", "18446744073709551616", "99999999999999999999"] {
        assert_eq!(parse_usize(s), s.parse::<usize>().ok(), "input {:?}", s);
    }
    assert_eq!(parse_usize("+12"), Some(12));
    assert_eq!(parse_usize("abc"), None);
}

#[test]
fn debug_list_quotes_and_escapes() {
    let items = vec!["a".to_string(), "b\"c".to_string()];
    assert_eq!(debug_list(&items), "[\"a\", \"b\\\"c\"]");
    assert_eq!(debug_list(&Vec::new()), "[]");
}
