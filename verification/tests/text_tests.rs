use ctf_arena::text::{
    ascii_string, decimal_string, eq_ignore_ascii_case, replace_text, str_equal, string_of,
    to_hex_lower, to_lower_bytes,
};

#[test]
fn decimal_of_ports() {
    assert_eq!(decimal_string(40001), "40001");
    assert_eq!(decimal_string(50001), "50001");
    assert_eq!(decimal_string(0), "0");
    assert_eq!(decimal_string(65535), "65535");
    assert_eq!(decimal_string(10), "10");
}

#[test]
fn hex_is_lower_case_two_digits_per_byte() {
    assert_eq!(to_hex_lower(&[0xbe, 0xef, 0x00, 0x0a]), b"beef000a".to_vec());
    assert_eq!(to_hex_lower(&[]), Vec::<u8>::new());
}

#[test]
fn ascii_bytes_become_text() {
    assert_eq!(ascii_string(b"abc-09"), "abc-09");
}

#[test]
fn lower_casing_touches_only_ascii_letters() {
    assert_eq!(to_lower_bytes(b"AbZ@[`z"), b"abz@[`z".to_vec());
    assert_eq!(to_lower_bytes("É".as_bytes()), "É".as_bytes().to_vec());
}

#[test]
fn case_insensitive_equality() {
    assert!(eq_ignore_ascii_case("ETH0", "eth0"));
    assert!(eq_ignore_ascii_case("eth0", "eth0"));
    assert!(!eq_ignore_ascii_case("eth0", "eth1"));
    assert!(!eq_ignore_ascii_case("eth0", "eth00"));
    assert!(!eq_ignore_ascii_case("É", "é"));
}

#[test]
fn string_equality_and_copies() {
    assert!(str_equal("1234", "1234"));
    assert!(!str_equal("1234", "123"));
    assert!(!str_equal("abc", "abd"));
    assert_eq!(string_of("héllo"), "héllo");
}

#[test]
fn replacement_is_left_to_right_and_non_overlapping() {
    assert_eq!(replace_text("a<FLAG>b<FLAG>", "<FLAG>", "x"), "axbx");
    assert_eq!(replace_text("no placeholder", "<FLAG>", "x"), "no placeholder");
    assert_eq!(replace_text("aaa", "aa", "b"), "ba");
    assert_eq!(replace_text("<FLAG<FLAG>>", "<FLAG>", "1"), "<FLAG1>");
    assert_eq!(replace_text("", "<FLAG>", "x"), "");
}
