use protonctx::order::{keys_equal, lex_less, stable_sort};
use protonctx::paths::{path_file_name, path_join, path_order_key};
use protonctx::text::{
    chars_of, decimal_len, ends_with, find_char, i32_decimal, join_strings, join_words,
    line_ranges_of, parse_u32, rfind_in, starts_with, trim_range, zero_padded_decimal,
};

#[test]
fn parse_u32_like_str_parse() {
    assert_eq!(parse_u32("274190"), Some(274190));
    assert_eq!(parse_u32("+7"), Some(7));
    assert_eq!(parse_u32("4294967295"), Some(u32::MAX));
    assert_eq!(parse_u32("4294967296"), None);
    assert_eq!(parse_u32(""), None);
    assert_eq!(parse_u32("+"), None);
    assert_eq!(parse_u32("-1"), None);
    assert_eq!(parse_u32(" 1"), None);
    assert_eq!(parse_u32("12a"), None);
    for s in ["0", "00042", "99999", "+0"] {
        assert_eq!(parse_u32(s), s.parse::<u32>().ok());
    }
}

#[test]
fn decimal_formatting() {
    assert_eq!(zero_padded_decimal(42, 10), "0000000042");
    assert_eq!(zero_padded_decimal(1234567890123, 10), "1234567890123");
    assert_eq!(i32_decimal(i32::MIN), "-2147483648");
    assert_eq!(i32_decimal(0), "0");
    assert_eq!(decimal_len(0), 1);
    assert_eq!(decimal_len(1000), 4);
}

#[test]
fn trimming_and_lines() {
    let cs = chars_of("  a b \t\n");
    assert_eq!(trim_range(&cs, 0, cs.len()), "a b");
    let text = chars_of("one\r\ntwo\n\nthree");
    let lines: Vec<String> = line_ranges_of(&text)
        .iter()
        .map(|&(a, b)| text[a..b].iter().collect())
        .collect();
    let expected: Vec<String> = "one\r\ntwo\n\nthree".lines().map(|l| l.to_string()).collect();
    assert_eq!(lines, expected);
    assert_eq!(line_ranges_of(&chars_of("x\n")).len(), 1);
    assert_eq!(line_ranges_of(&chars_of("")).len(), 0);
}

#[test]
fn searching() {
    let cs = chars_of("a/b/c");
    assert_eq!(find_char(&cs, 0, '/'), Some(1));
    assert_eq!(find_char(&cs, 2, '/'), Some(3));
    assert_eq!(find_char(&cs, 4, '/'), None);
    let p = chars_of("/");
    assert_eq!(rfind_in(&cs, 0, cs.len(), &p), Some(3));
    assert_eq!(rfind_in(&cs, 0, 3, &p), Some(1));
    assert_eq!(rfind_in(&cs, 2, 3, &p), None);
    assert!(starts_with(&cs, &chars_of("a/")));
    assert!(!starts_with(&cs, &chars_of("b")));
    assert!(ends_with(&cs, &chars_of("/c")));
}

#[test]
fn joining() {
    assert_eq!(join_words("  Steam   Linux Runtime\t4.0 ", "_"), "Steam_Linux_Runtime_4.0");
    assert_eq!(join_words("   ", "_"), "");
    let parts = vec!["a".to_string(), "b".to_string(), "c".to_string()];
    assert_eq!(join_strings(&parts, ", "), "a, b, c");
    assert_eq!(join_strings(&vec![], ", "), "");
}

#[test]
fn path_helpers() {
    assert_eq!(path_join("/home/u", ".steam/steam"), "/home/u/.steam/steam");
    assert_eq!(path_join("/home/u/", "x"), "/home/u/x");
    assert_eq!(path_join("/home/u", "/abs"), "/abs");
    assert_eq!(path_join("", "x"), "x");
    assert_eq!(path_file_name("/a/b/Proton 9.0"), Some("Proton 9.0".to_string()));
    assert_eq!(path_file_name("/a/b/"), Some("b".to_string()));
    assert_eq!(path_file_name("/a/./b/."), Some("b".to_string()));
    assert_eq!(path_file_name("/a/.."), None);
    assert_eq!(path_file_name("/"), None);
    assert_eq!(path_file_name(""), None);
}

#[test]
fn path_order_matches_component_order() {
    // Paths compare component by component, so "/a/b" sorts before "/a-b".
    assert!(lex_less(&path_order_key("/a/b"), &path_order_key("/a-b")));
    assert!(keys_equal(&path_order_key("/a//b/"), &path_order_key("/a/b")));
    assert!(keys_equal(&path_order_key("/a/./b"), &path_order_key("/a/b")));
    assert!(!keys_equal(&path_order_key("a"), &path_order_key("/a")));
}

#[test]
fn stable_sort_keeps_equal_keys_in_order() {
    let items = vec!["b1", "a1", "b2", "a2"];
    let keys = vec![vec![2u32], vec![1], vec![2], vec![1]];
    let (up, _) = stable_sort(items.clone(), &keys, false);
    assert_eq!(up, vec!["a1", "a2", "b1", "b2"]);
    let (down, _) = stable_sort(items, &keys, true);
    assert_eq!(down, vec!["b1", "b2", "a1", "a2"]);
}
