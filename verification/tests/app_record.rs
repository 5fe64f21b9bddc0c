use cmux_tui::app::log::{opening_line, record_text};
use cmux_tui::app::record::{hexdump_lines, Direction, Record};
use cmux_tui::clock::{Timestamp, FIRST_SECOND, LAST_SECOND};

#[test]
fn hexdump_pads_short_lines_so_ascii_column_aligns() {
    let lines = hexdump_lines(b"AT\r", 8);
    assert_eq!(lines.len(), 1);
    let (hex, ascii) = &lines[0];
    assert_eq!(hex.len(), 23, "hex 列必须定宽，实际: {hex:?}");
    assert_eq!(hex.trim_end(), "41 54 0D");
    assert_eq!(ascii.as_str(), "AT.");
}

#[test]
fn hexdump_splits_by_bytes_per_line() {
    let data: Vec<u8> = (0..20).collect();
    let lines = hexdump_lines(&data, 8);
    assert_eq!(lines.len(), 3);
    assert_eq!(lines[0].0, "00 01 02 03 04 05 06 07");
    assert_eq!(lines[2].0.trim_end(), "10 11 12 13");
}

#[test]
fn non_printable_bytes_render_as_dot() {
    let lines = hexdump_lines(&[0x00, 0x1F, 0x20, 0x7E, 0x7F, 0xFF], 8);
    assert_eq!(lines[0].1, ".. ~..", "只有 0x20..=0x7E 可打印");
}

#[test]
fn empty_input_produces_no_lines() {
    assert!(hexdump_lines(&[], 8).is_empty());
}

#[test]
fn sixteen_byte_width_is_supported() {
    let data: Vec<u8> = (0..16).collect();
    let lines = hexdump_lines(&data, 16);
    assert_eq!(lines.len(), 1);
    assert_eq!(lines[0].0.len(), 47);
}

#[test]
fn record_header_shows_time_direction_and_size() {
    let r = Record::new(Direction::Tx, 1, b"AT\r".to_vec());
    let h = r.header();
    assert!(h.ends_with("TX 3B"), "实际: {h}");
    assert_eq!(h.len(), 12 + 1 + 5, "实际: {h:?}");
}

#[test]
fn error_record_header_carries_note() {
    let mut r = Record::new(Direction::Error, 1, Vec::new());
    r.note = Some("写失败".into());
    assert!(r.header().contains("写失败"));
}

#[test]
fn direction_labels_are_stable() {
    assert_eq!(Direction::Tx.label(), "TX");
    assert_eq!(Direction::Rx.label(), "RX");
    assert_eq!(Direction::Info.label(), "--");
    assert_eq!(Direction::Error.label(), "!!");
}

/// 2024-01-31 19:04:12.331987654
fn moment() -> Timestamp {
    Timestamp::new(1_706_727_852, 331_987_654).unwrap()
}

#[test]
fn times_are_written_as_the_calendar_has_them() {
    assert_eq!(moment().time_text(), "19:04:12.331");
    assert_eq!(moment().file_stamp(), "20240131-190412");
    assert_eq!(moment().date_time(), "2024-01-31 19:04:12");
    let before = Timestamp::new(-1, 999_999_999).unwrap();
    assert_eq!(before.time_text(), "23:59:59.999");
    assert_eq!(before.date_time(), "1969-12-31 23:59:59");
    let leap = Timestamp::new(951_782_400, 0).unwrap();
    assert_eq!(leap.date_time(), "2000-02-29 00:00:00");
}

#[test]
fn the_calendar_has_two_ends() {
    assert!(Timestamp::new(FIRST_SECOND - 1, 0).is_none());
    assert!(Timestamp::new(LAST_SECOND + 1, 0).is_none());
    assert!(Timestamp::new(0, 1_000_000_000).is_none());
    assert_eq!(Timestamp::new(FIRST_SECOND, 0).unwrap().time_text(), "00:00:00.000");
    assert_eq!(
        Timestamp::new(LAST_SECOND, 999_999_999).unwrap().time_text(),
        "23:59:59.999"
    );
    assert!(Timestamp::new(FIRST_SECOND, 0).unwrap().date_time().starts_with('-'));
}

#[test]
fn the_clock_shows_a_time_of_day() {
    let text = Timestamp::now().time_text();
    assert_eq!(text.len(), 12);
    assert_eq!(&text[2..3], ":");
    assert_eq!(&text[8..9], ".");
}

#[test]
fn headers_are_exact() {
    let data = Record::data_at(moment(), Direction::Rx, 3, vec![0; 10]);
    assert_eq!(data.header(), "19:04:12.331 RX 10B");
    let words = Record::words_at(moment(), Direction::Info, 3, "建链成功");
    assert_eq!(words.header(), "19:04:12.331 -- 建链成功");
    assert!(words.bytes.is_empty());
}

#[test]
fn writes_header_on_open() {
    let line = opening_line(&moment());
    assert!(line.contains("cmux-tui 会话日志"), "实际: {line}");
    assert_eq!(line, "==== cmux-tui 会话日志 2024-01-31 19:04:12 ====\n");
}

#[test]
fn appends_one_line_per_record_with_hex_and_ascii() {
    let mut text = record_text(&Record::new(Direction::Tx, 1, b"AT\r".to_vec()));
    text.push_str(&record_text(&Record::new(Direction::Rx, 1, b"OK".to_vec())));
    assert!(text.contains("DLCI 1 TX"), "实际: {text}");
    assert!(text.contains("41 54 0D"), "应含 hex，实际: {text}");
    assert!(text.contains("|AT.|"), "应含 ascii，实际: {text}");
    assert!(text.contains("4F 4B"), "实际: {text}");
    assert_eq!(text.lines().count(), 4);
}

#[test]
fn info_records_log_their_note() {
    let text = record_text(&Record::info(1, "建链成功"));
    assert!(text.contains("建链成功"), "实际: {text}");
    assert_eq!(text.lines().count(), 1);
}

#[test]
fn log_entries_are_exact() {
    let rec = Record::data_at(moment(), Direction::Tx, 12, (0x41..0x53).collect());
    let pad = " ".repeat(42);
    assert_eq!(
        record_text(&rec),
        format!(
            "19:04:12.331 DLCI 12 TX 18B\n    41 42 43 44 45 46 47 48 49 4A 4B 4C 4D 4E 4F 50  |ABCDEFGHIJKLMNOP|\n    51 52{pad}  |QR|\n"
        )
    );
}

#[test]
fn dump_lines_hold_all_the_bytes() {
    for per_line in 1..=20usize {
        for len in 0..50usize {
            let data: Vec<u8> = (0..len).map(|i| i as u8).collect();
            let lines = hexdump_lines(&data, per_line);
            assert_eq!(lines.len(), len.div_ceil(per_line));
            assert!(lines.iter().all(|(hex, _)| hex.len() == per_line * 3 - 1));
            let shown: usize = lines.iter().map(|(_, a)| a.len()).sum();
            assert_eq!(shown, len);
        }
    }
}

#[test]
fn errors_are_records_of_words() {
    let r = Record::error(4, "写失败");
    assert_eq!(r.dir, Direction::Error);
    assert_eq!(r.dlci, 4);
    assert!(r.bytes.is_empty());
    assert!(r.header().ends_with(" !! 写失败"));
}
