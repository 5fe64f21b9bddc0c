use cmux_tui::text::{contains, is_whitespace, parse_number, push_decimal, push_hex, trim, trim_end};

#[test]
fn white_space_is_that_of_unicode() {
    for n in 0..=0x10FFFFu32 {
        if let Some(c) = char::from_u32(n) {
            assert_eq!(is_whitespace(c), c.is_whitespace(), "{n:#X}");
        }
    }
}

#[test]
fn trimming_takes_white_space_off_the_ends() {
    for s in ["", "  ", "a", " a ", "\u{3000}a b\r\n", "\tab"] {
        assert_eq!(trim(s), s.trim());
        assert_eq!(trim_end(s), s.trim_end());
    }
}

#[test]
fn searching_finds_texts_anywhere() {
    for (s, needle) in [
        ("abc", "abc"),
        ("abc", "bc"),
        ("abc", ""),
        ("", ""),
        ("", "a"),
        ("aab", "ab"),
        ("abab", "bb"),
        ("建链成功", "链成"),
    ] {
        assert_eq!(contains(s, needle), s.contains(needle), "{s} {needle}");
    }
}

#[test]
fn numbers_are_written_and_read() {
    for n in [0u64, 7, 10, 99, 100, 4095, u64::MAX] {
        let mut s = String::from("n=");
        push_decimal(&mut s, n);
        assert_eq!(s, format!("n={n}"));
    }
    for b in 0..=255u8 {
        let mut s = String::new();
        push_hex(&mut s, b);
        assert_eq!(s, format!("{b:02X}"));
    }
    for s in ["0", "255", "256", "+9", "++9", "", "+", "1 ", "-0", "00012", "四", "99999999999999"] {
        assert_eq!(parse_number(s, 255).map(|n| n as u8), s.parse::<u8>().ok(), "{s}");
    }
}
