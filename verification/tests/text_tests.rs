use local_code_core::text::{
    concat3, join_path, join_strings, lines_of, replace_first, sort_strings, str_eq, str_is_empty,
    str_lt, trim, trim_trailing_slashes,
};
use local_code_core::id::{format_id, generate_id, signed_decimal, to_base36, to_radix};
use local_code_core::agent::stream_util::floor_char_boundary;

#[test]
fn trim_removes_unicode_whitespace_at_both_ends() {
    assert_eq!(trim("  \t hello world \n"), "hello world");
    assert_eq!(trim("\u{3000}x\u{a0}"), "x");
    assert_eq!(trim("   "), "");
    assert_eq!(trim(""), "");
}

#[test]
fn lines_split_like_str_split_newline() {
    assert_eq!(lines_of("a\nb\n"), vec!["a", "b", ""]);
    assert_eq!(lines_of(""), vec![""]);
    assert_eq!(lines_of("é\nü"), vec!["é", "ü"]);
    assert_eq!(lines_of("one"), vec!["one"]);
}

#[test]
fn replace_first_replaces_only_the_first_occurrence() {
    assert_eq!(replace_first("a-b-c", "-", "+"), "a+b-c");
    assert_eq!(replace_first("abc", "x", "y"), "abc");
    assert_eq!(replace_first("abc", "", "_"), "_abc");
    assert_eq!(replace_first("héllo", "é", "e"), "hello");
}

#[test]
fn join_strings_puts_separator_between_items() {
    let v = vec!["a".to_string(), "b".to_string(), "c".to_string()];
    assert_eq!(join_strings(&v, ", "), "a, b, c");
    assert_eq!(join_strings(&Vec::new(), ", "), "");
    assert_eq!(join_strings(&vec!["only".to_string()], "\n"), "only");
}

#[test]
fn sort_strings_orders_by_bytes() {
    let v = vec!["b".to_string(), "B".to_string(), "a".to_string(), "ab".to_string(), "a".to_string()];
    assert_eq!(sort_strings(v), vec!["B", "a", "a", "ab", "b"]);
    assert!(str_lt("a", "b"));
    assert!(str_lt("a", "ab"));
    assert!(!str_lt("b", "a"));
    assert!(!str_lt("a", "a"));
}

#[test]
fn string_equality_and_emptiness() {
    assert!(str_eq("abc", "abc"));
    assert!(!str_eq("abc", "abd"));
    assert!(!str_eq("abc", "ab"));
    assert!(str_is_empty(""));
    assert!(!str_is_empty(" "));
    assert_eq!(concat3("a", "b", "c"), "abc");
}

#[test]
fn path_join_follows_path_join_rules() {
    assert_eq!(join_path("/home/u", ".local-code"), "/home/u/.local-code");
    assert_eq!(join_path("/home/u/", "x"), "/home/u/x");
    assert_eq!(join_path("", ".local-code"), ".local-code");
    assert_eq!(join_path("/home/u", "/etc"), "/etc");
}

#[test]
fn trailing_slashes_are_trimmed() {
    assert_eq!(trim_trailing_slashes("src///"), "src");
    assert_eq!(trim_trailing_slashes("src"), "src");
    assert_eq!(trim_trailing_slashes("///"), "");
}

#[test]
fn lossy_decoding_of_bytes() {
    let t = local_code_core::tools::BashTool;
    assert_eq!(t.finish("héllo".as_bytes(), b"", true, Some(0)).output, "héllo");
    assert_eq!(t.finish(&[0x61, 0xff, 0x62], b"", true, Some(0)).output, "a\u{fffd}b");
}

#[test]
fn radix_and_ids() {
    assert_eq!(to_base36(0), "0");
    assert_eq!(to_base36(35), "z");
    assert_eq!(to_base36(36), "10");
    assert_eq!(to_radix(255, 16), "ff");
    assert_eq!(to_radix(1234, 10), "1234");
    assert_eq!(format_id("call", 36, 7), "call_10_7");
    assert_eq!(signed_decimal(-42), "-42");
    assert_eq!(signed_decimal(0), "0");
    assert_eq!(signed_decimal(i64::MIN), "-9223372036854775808");
    let id = generate_id("chat", 3);
    assert!(id.starts_with("chat_"));
    assert!(id.ends_with("_3"));
}

#[test]
fn floor_char_boundary_backs_up_to_a_character_start() {
    let s = "aé";
    assert_eq!(floor_char_boundary(s, 0), 0);
    assert_eq!(floor_char_boundary(s, 1), 1);
    assert_eq!(floor_char_boundary(s, 2), 1);
    assert_eq!(floor_char_boundary(s, 3), 3);
    assert_eq!(floor_char_boundary(s, 10), 3);
}
