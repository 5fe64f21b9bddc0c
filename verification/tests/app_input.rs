use cmux_tui::app::input::{parse_input, parse_input_with, InputBox, InputMode, LineEnding};
use cmux_tui::app::record::hexdump_lines;

#[test]
fn ascii_mode_sends_literal_text() {
    assert_eq!(parse_input("AT", InputMode::Ascii, false).unwrap(), b"AT");
}

#[test]
fn ascii_mode_appends_cr_when_asked() {
    assert_eq!(parse_input("AT", InputMode::Ascii, true).unwrap(), b"AT\r");
}

#[test]
fn hex_mode_accepts_spaced_bytes() {
    assert_eq!(
        parse_input("41 54 0D", InputMode::Hex, false).unwrap(),
        vec![0x41, 0x54, 0x0D]
    );
}

#[test]
fn hex_mode_accepts_run_together_bytes() {
    assert_eq!(
        parse_input("41540D", InputMode::Hex, false).unwrap(),
        vec![0x41, 0x54, 0x0D]
    );
}

#[test]
fn hex_mode_ignores_append_cr() {
    assert_eq!(parse_input("41", InputMode::Hex, true).unwrap(), vec![0x41]);
}

#[test]
fn hex_mode_rejects_odd_digit_count() {
    let err = parse_input("415", InputMode::Hex, false).unwrap_err();
    assert!(err.contains("偶数"), "实际: {err}");
}

#[test]
fn hex_mode_rejects_non_hex_characters() {
    let err = parse_input("4G", InputMode::Hex, false).unwrap_err();
    assert!(err.contains("非法"), "实际: {err}");
}

#[test]
fn empty_input_is_rejected_in_both_modes() {
    assert!(parse_input("", InputMode::Ascii, true).is_err());
    assert!(parse_input("   ", InputMode::Hex, false).is_err());
}

#[test]
fn mode_toggles_between_ascii_and_hex() {
    let mut b = InputBox::default();
    assert_eq!(b.mode, InputMode::Ascii);
    b.toggle_mode();
    assert_eq!(b.mode, InputMode::Hex);
    b.toggle_mode();
    assert_eq!(b.mode, InputMode::Ascii);
}

#[test]
fn editing_inserts_and_deletes_at_cursor() {
    let mut b = InputBox::default();
    b.insert('A');
    b.insert('T');
    assert_eq!(b.buffer, "AT");
    b.backspace();
    assert_eq!(b.buffer, "A");
    b.clear();
    assert_eq!(b.buffer, "");
}

#[test]
fn submit_pushes_history_and_clears_buffer() {
    let mut b = InputBox::default();
    b.insert('A');
    let text = b.submit();
    assert_eq!(text, "A");
    assert_eq!(b.buffer, "");
    assert_eq!(b.history, vec!["A".to_string()]);
}

#[test]
fn history_navigation_walks_backwards_then_forwards() {
    let mut b = InputBox::default();
    for c in "one".chars() {
        b.insert(c);
    }
    b.submit();
    for c in "two".chars() {
        b.insert(c);
    }
    b.submit();

    b.history_prev();
    assert_eq!(b.buffer, "two");
    b.history_prev();
    assert_eq!(b.buffer, "one");
    b.history_next();
    assert_eq!(b.buffer, "two");
    b.history_next();
    assert_eq!(b.buffer, "", "走到最新之后应回到空输入");
}

#[test]
fn duplicate_consecutive_history_entries_are_collapsed() {
    let mut b = InputBox::default();
    for c in "x".chars() {
        b.insert(c);
    }
    b.submit();
    for c in "x".chars() {
        b.insert(c);
    }
    b.submit();
    assert_eq!(b.history.len(), 1);
}

#[test]
fn line_endings_go_behind_text() {
    let send = |e| parse_input_with("AT", InputMode::Ascii, e).unwrap();
    assert_eq!(send(LineEnding::Nothing), b"AT");
    assert_eq!(send(LineEnding::Cr), b"AT\r");
    assert_eq!(send(LineEnding::Lf), b"AT\n");
    assert_eq!(send(LineEnding::CrLf), b"AT\r\n");
    assert_eq!(
        parse_input_with("0a", InputMode::Hex, LineEnding::CrLf).unwrap(),
        vec![0x0A]
    );
    assert_eq!(LineEnding::default(), LineEnding::Cr);
}

#[test]
fn line_ending_words_are_read() {
    assert_eq!(LineEnding::parse("none"), Ok(LineEnding::Nothing));
    assert_eq!(LineEnding::parse("cr"), Ok(LineEnding::Cr));
    assert_eq!(LineEnding::parse("lf"), Ok(LineEnding::Lf));
    assert_eq!(LineEnding::parse("crlf"), Ok(LineEnding::CrLf));
    assert!(LineEnding::parse("CR").is_err());
}

#[test]
fn rejects_invalid_line_ending() {
    let err = LineEnding::parse("rn").unwrap_err();
    assert!(err.contains("none/cr/lf/crlf"), "错误信息应列出合法取值，实际: {err}");
    assert!(err.contains("rn"), "实际: {err}");
}

#[test]
fn text_is_sent_in_utf8() {
    assert_eq!(
        parse_input("é中", InputMode::Ascii, false).unwrap(),
        "é中".as_bytes()
    );
}

#[test]
fn input_errors_are_exact() {
    let hex = |s| parse_input(s, InputMode::Hex, true).unwrap_err();
    assert_eq!(parse_input("", InputMode::Ascii, true).unwrap_err(), "输入为空");
    assert_eq!(hex(" \t\u{3000}"), "输入为空");
    assert_eq!(hex("415"), "十六进制位数必须为偶数");
    assert_eq!(hex("4G"), "非法十六进制字符 'G'");
    assert_eq!(hex("4'"), "非法十六进制字符 '\\''");
    assert_eq!(hex("4\u{1}"), "非法十六进制字符 '\\u{1}'");
    assert_eq!(hex("4中"), "非法十六进制字符 '中'");
}

#[test]
fn input_errors_show_plain_characters_as_typed() {
    for c in '!'..='~' {
        if c == '\'' || c == '\\' || c.is_ascii_hexdigit() {
            continue;
        }
        let line = format!("41 {}?", c);
        assert_eq!(
            parse_input(&line, InputMode::Hex, true),
            Err(format!("非法十六进制字符 '{}'", c))
        );
    }
}

#[test]
fn every_byte_reads_back_from_hexadecimal() {
    for b in 0..=255u8 {
        assert_eq!(parse_input(&format!("{b:02X}"), InputMode::Hex, true), Ok(vec![b]));
        assert_eq!(parse_input(&format!("{b:02x}"), InputMode::Hex, true), Ok(vec![b]));
    }
}

#[test]
fn a_hex_dump_can_be_typed_in_again() {
    let data: Vec<u8> = (0..40).map(|i: u8| i.wrapping_mul(71)).collect();
    let mut back = Vec::new();
    for (hex, _) in hexdump_lines(&data, 16) {
        back.extend(parse_input(&hex, InputMode::Hex, true).unwrap());
    }
    assert_eq!(back, data);
}

#[test]
fn history_stops_at_the_earliest_line_and_forgets_its_place_on_typing() {
    let mut b = InputBox::default();
    b.history_prev();
    assert_eq!(b.buffer, "");
    for word in ["a", "b"] {
        for c in word.chars() {
            b.insert(c);
        }
        b.submit();
    }
    b.history_prev();
    b.history_prev();
    b.history_prev();
    assert_eq!(b.buffer, "a");
    b.insert('x');
    assert_eq!(b.buffer, "ax");
    b.history_next();
    assert_eq!(b.buffer, "ax");
    b.history_prev();
    assert_eq!(b.buffer, "b");
}

#[test]
fn empty_lines_do_not_enter_the_history() {
    let mut b = InputBox::default();
    assert_eq!(b.submit(), "");
    assert!(b.history.is_empty());
    b.backspace();
    assert_eq!(b.buffer, "");
}

#[test]
fn modes_have_labels() {
    assert_eq!(InputMode::Ascii.label(), "ASCII");
    assert_eq!(InputMode::Hex.label(), "HEX");
    assert_eq!(InputMode::default(), InputMode::Ascii);
}

#[test]
fn white_space_in_hexadecimal_makes_no_difference() {
    let plain = parse_input("00ffA55a", InputMode::Hex, false);
    assert_eq!(plain, Ok(vec![0x00, 0xFF, 0xA5, 0x5A]));
    for s in ["00 ff A5 5a", " 0 0f\tfA55\na ", "\u{3000}00ffA\u{A0}55a"] {
        assert_eq!(parse_input(s, InputMode::Hex, true), plain);
    }
}
