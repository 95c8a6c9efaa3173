use screenshotter::text::{
    contains, find_char, from_chars, last_segment, parse_integer, same, show, slice_chars, split,
    to_chars, trim, trim_hyphens, white,
};

#[test]
fn characters_round_trip() {
    let s = to_chars("añ-日");
    assert_eq!(s, vec!['a', 'ñ', '-', '日']);
    assert_eq!(from_chars(&s, 1, 4), "ñ-日");
    assert_eq!(slice_chars(&s, 0, 2), vec!['a', 'ñ']);
}

#[test]
fn white_space_is_what_unicode_says() {
    for v in 0..=0x10ffffu32 {
        if let Some(c) = char::from_u32(v) {
            assert_eq!(white(c), c.is_whitespace(), "{v:x}");
        }
    }
}

#[test]
fn trimming_takes_both_ends() {
    assert_eq!(trim(" \t\u{a0}a b\r\n"), "a b");
    assert_eq!(trim("\n \n"), "");
    assert_eq!(trim_hyphens("--a-b-"), "a-b");
    assert_eq!(trim_hyphens("---"), "");
}

#[test]
fn parts_are_found() {
    assert!(contains("Dell U2723QE (DP-1)", "DP-1"));
    assert!(contains("abc", ""));
    assert!(!contains("abc", "abcd"));
    assert!(!contains("", "a"));
    assert!(same("abc", "abc"));
    assert!(!same("abc", "abd"));
    let s = to_chars("a,b,c");
    assert_eq!(find_char(&s, 0, 5, ','), Some(1));
    assert_eq!(find_char(&s, 2, 5, ','), Some(3));
    assert_eq!(find_char(&s, 2, 3, ','), None);
    assert_eq!(split(&s, 0, ','), Some(1));
    assert_eq!(split(&s, 4, ','), None);
}

#[test]
fn last_segments() {
    assert_eq!(last_segment("org.place.Application", '.'), "Application");
    assert_eq!(last_segment("firefox", '.'), "firefox");
    assert_eq!(last_segment("org.", '.'), "");
}

fn parse(s: &str, min: i64, max: i64) -> Option<i64> {
    let chars = to_chars(s);
    let n = chars.len();
    parse_integer(&chars, 0, n, min, max)
}

#[test]
fn integers_are_read_as_rust_reads_them() {
    for s in [
        "0", "7", "-7", "+7", "007", "", "-", "+", "1a", " 1", "1 ", "--1", "2147483647",
        "2147483648", "-2147483648", "-2147483649", "99999999999999999999", "٣",
    ] {
        let expected = s.parse::<i32>().ok().map(i64::from);
        assert_eq!(parse(s, i32::MIN as i64, i32::MAX as i64), expected, "{s:?}");
    }
}

#[test]
fn integers_are_written_as_rust_writes_them() {
    for n in [0, 1, -1, 10, -10, 1234567890, i64::MAX, i64::MIN] {
        assert_eq!(show(n), n.to_string());
        assert_eq!(parse(&show(n), i64::MIN, i64::MAX), Some(n));
    }
}
