use matrix_irc_bridge::numeral::{parse_u16, to_decimal};
use matrix_irc_bridge::text::{preview, trim, truncate_at_char_boundary, user_name};

#[test]
fn short_text_is_not_cut() {
    assert_eq!(truncate_at_char_boundary("hello", 5), "hello");
    assert_eq!(truncate_at_char_boundary("hello", 50), "hello");
    assert_eq!(truncate_at_char_boundary("", 0), "");
}

#[test]
fn long_text_is_cut_between_characters() {
    assert_eq!(truncate_at_char_boundary("hello", 3), "hel");
    assert_eq!(truncate_at_char_boundary("h\u{e9}llo", 2), "h");
    assert_eq!(truncate_at_char_boundary("h\u{e9}llo", 3), "h\u{e9}");
    assert_eq!(truncate_at_char_boundary("\u{1f600}\u{1f600}", 7), "\u{1f600}");
    assert_eq!(truncate_at_char_boundary("\u{1f600}", 3), "");
    assert_eq!(truncate_at_char_boundary("\u{20ac}x", 0), "");
}

#[test]
fn the_cut_is_the_longest_prefix_that_fits() {
    let s = "a\u{e9}\u{20ac}\u{1f600}z";
    for max in 0..=s.len() + 2 {
        let cut = truncate_at_char_boundary(s, max);
        assert!(s.starts_with(cut));
        assert!(cut.len() <= max);
        if cut.len() < s.len() {
            let next = s[cut.len()..].chars().next().unwrap();
            assert!(cut.len() + next.len_utf8() > max);
        }
        assert_eq!(truncate_at_char_boundary(cut, max), cut);
    }
}

#[test]
fn preview_keeps_fifty_bytes() {
    let fifty = "x".repeat(50);
    assert_eq!(preview(&fifty), fifty);
    assert_eq!(preview(&"x".repeat(51)), format!("{}...", fifty));
    let accents = "\u{e9}".repeat(30);
    assert_eq!(preview(&accents), format!("{}...", "\u{e9}".repeat(25)));
    let euros = "\u{20ac}".repeat(17);
    assert_eq!(preview(&euros), format!("{}...", "\u{20ac}".repeat(16)));
    assert!(preview(&euros).len() <= 53);
}

#[test]
fn user_name_is_the_localpart() {
    assert_eq!(user_name("@alice:example.org"), "alice");
    assert_eq!(user_name("@@alice:example.org:8448"), "alice");
    assert_eq!(user_name("bob"), "bob");
    assert_eq!(user_name("@:example.org"), "");
    assert_eq!(user_name(""), "");
    assert_eq!(user_name("a@b:c"), "a@b");
}

#[test]
fn trim_removes_white_space_at_the_ends() {
    assert_eq!(trim("  $event \r\n"), "$event");
    assert_eq!(trim("\u{3000}a b\u{85}"), "a b");
    assert_eq!(trim(" \t "), "");
    assert_eq!(trim("x"), "x");
}

#[test]
fn trim_agrees_with_std_on_every_character() {
    for v in 0..=0x10ffffu32 {
        if let Some(c) = char::from_u32(v) {
            let s = c.to_string();
            assert_eq!(trim(&s), s.trim());
        }
    }
}

#[test]
fn decimal_numerals() {
    for n in [0u64, 7, 10, 99, 100, 12345, u64::MAX] {
        assert_eq!(to_decimal(n), n.to_string());
    }
}

#[test]
fn port_numbers_are_read_as_std_reads_them() {
    for s in [
        "6697", "0", "65535", "65536", "+80", "+", "", "-1", "-0", " 1", "1 ", "0080", "1_000",
        "000000000000000000000001", "99999999999999999999", "12a", "++1", "\u{0661}",
    ] {
        assert_eq!(parse_u16(s), s.parse::<u16>().ok(), "{}", s);
    }
    for n in 0..=u16::MAX {
        assert_eq!(parse_u16(&to_decimal(n as u64)), Some(n));
    }
}
