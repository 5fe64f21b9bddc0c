use cmux_tui::app::event::{Event, TxRequest};
use cmux_tui::app::io_threads::{reader_step, ReaderNext};
use cmux_tui::mux::decoder::FrameDecoder;
use cmux_tui::mux::frame::{Frame, FrameType};
use cmux_tui::serial::at::{enter_mux, enter_mux_with, hear, AtConfig, AtError, AtReply};
use cmux_tui::serial::params::{DataBits, FrameFormat, Parity, StopBits};
use cmux_tui::serial::stream::{ByteStream, Line, MockStream, Port, StreamError};
use cmux_tui::serial::timer::{in_time, Clock, MachineClock, StoppedClock};

const MILLISECOND: u64 = 1_000_000;

fn fast() -> AtConfig {
    AtConfig { attempts: 3, timeout: 50 * MILLISECOND, n1: 127 }
}

fn text(s: &MockStream) -> String {
    String::from_utf8_lossy(&s.written()).to_string()
}

#[test]
fn sends_at_then_cmux_when_module_replies_ok() {
    let mut s = MockStream::new();
    s.feed(b"\r\nOK\r\n");
    s.feed(b"\r\nOK\r\n");

    enter_mux(&mut s, &fast()).expect("握手应成功");

    let written = text(&s);
    assert!(written.starts_with("AT\r"), "首先应发 AT，实际: {written:?}");
    assert!(
        written.contains("AT+CMUX=0,0,5,127,10,3,30,10,2\r"),
        "实际: {written:?}"
    );
}

#[test]
fn retries_at_when_first_probe_is_silent() {
    let mut s = MockStream::new();
    s.feed_timeout();
    s.feed(b"\r\nOK\r\n");
    s.feed(b"\r\nOK\r\n");

    enter_mux(&mut s, &fast()).expect("重试后应成功");

    let written = text(&s);
    assert_eq!(
        written.matches("AT\r").count(),
        2,
        "沉默一次后应重发一次 AT，实际: {written:?}"
    );
}

#[test]
fn fails_when_module_never_answers() {
    let mut s = MockStream::new();
    let err = enter_mux(&mut s, &fast()).unwrap_err();
    assert!(matches!(err, AtError::NoResponse));
    assert_eq!(text(&s).matches("AT\r").count(), 3);
}

#[test]
fn fails_when_module_returns_error() {
    let mut s = MockStream::new();
    s.feed(b"\r\nOK\r\n");
    s.feed(b"\r\nERROR\r\n");
    let err = enter_mux(&mut s, &fast()).unwrap_err();
    assert!(matches!(err, AtError::Rejected(_)), "实际: {err:?}");
}

#[test]
fn n1_is_reflected_in_cmux_command() {
    let mut s = MockStream::new();
    s.feed(b"\r\nOK\r\n");
    s.feed(b"\r\nOK\r\n");
    let cfg = AtConfig { n1: 64, ..fast() };
    enter_mux(&mut s, &cfg).unwrap();
    let written = text(&s);
    assert!(written.contains("AT+CMUX=0,0,5,64,"), "实际: {written:?}");
}

#[test]
fn the_words_of_a_refusal_are_kept() {
    let mut s = MockStream::new();
    s.feed(b"OK");
    s.feed(b"\r\n+CME ");
    s.feed(b"ERROR: 4\r\n");
    match enter_mux(&mut s, &fast()) {
        Err(AtError::Rejected(words)) => assert_eq!(words, "+CME ERROR: 4"),
        other => panic!("{other:?}"),
    }
}

#[test]
fn an_error_to_the_question_is_asked_again() {
    let mut s = MockStream::new();
    s.feed(b"ERROR");
    s.feed(b"O");
    s.feed(b"K");
    s.feed(b"OK");
    enter_mux(&mut s, &fast()).unwrap();
    assert_eq!(text(&s), "AT\rAT\rAT+CMUX=0,0,5,127,10,3,30,10,2\r");
}

#[test]
fn a_silent_command_is_no_response() {
    let mut s = MockStream::new();
    s.feed(b"OK");
    assert!(matches!(enter_mux(&mut s, &fast()), Err(AtError::NoResponse)));
}

#[test]
fn without_attempts_nothing_is_said() {
    let mut s = MockStream::new();
    let cfg = AtConfig { attempts: 0, ..fast() };
    assert!(matches!(enter_mux(&mut s, &cfg), Err(AtError::NoResponse)));
    assert!(s.written().is_empty());
}

#[test]
fn without_time_nothing_is_read() {
    let mut s = MockStream::new();
    s.feed(b"OK");
    let cfg = AtConfig { timeout: 0, ..fast() };
    assert!(matches!(enter_mux(&mut s, &cfg), Err(AtError::NoResponse)));
    assert_eq!(s.read(8).unwrap(), b"OK");
}

struct Broken {
    on_write: bool,
}

impl Port for Broken {
    fn read(&mut self, _max: usize) -> Result<Vec<u8>, StreamError> {
        Err(StreamError { timed_out: false, why: "read".into() })
    }

    fn write_all(&mut self, _bytes: &[u8]) -> Result<(), StreamError> {
        if self.on_write {
            Err(StreamError { timed_out: true, why: "write".into() })
        } else {
            Ok(())
        }
    }

    fn flush(&mut self) -> Result<(), StreamError> {
        Ok(())
    }
}

#[test]
fn a_broken_line_ends_the_dialogue() {
    let why = |on_write| match enter_mux(&mut Line::new(Broken { on_write }), &fast()) {
        Err(AtError::Io(why)) => why,
        other => panic!("{other:?}"),
    };
    assert_eq!(why(true), "write");
    assert_eq!(why(false), "read");
}

#[test]
fn errors_of_the_dialogue_in_words() {
    assert_eq!(AtError::NoResponse.to_string(), "模块无响应");
    assert_eq!(AtError::Rejected("x".into()).to_string(), "模块拒绝: x");
    assert_eq!(AtError::Io("y".into()).to_string(), "串口错误: y");
    let cfg = AtConfig::default();
    assert_eq!((cfg.attempts, cfg.timeout, cfg.n1), (3, 1_000_000_000, 127));
}

#[test]
fn words_are_put_together() {
    let mut words = String::new();
    assert!(hear(&mut words, &[0xFF, b'E']).is_none());
    assert_eq!(words, "\u{FFFD}E");
    assert!(hear(&mut words, b"RRO").is_none());
    assert!(matches!(hear(&mut words, b"R \n"), Some(AtReply::Refused(w)) if w == "\u{FFFD}ERROR"));
    assert!(matches!(hear(&mut words, "好OK".as_bytes()), Some(AtReply::Accepted)));
}

#[test]
fn default_is_8n1() {
    let f = FrameFormat::default();
    assert_eq!(f.data_bits, DataBits::Eight);
    assert_eq!(f.parity, Parity::Absent);
    assert_eq!(f.stop_bits, StopBits::One);
    assert_eq!(f.to_string(), "8N1");
}

#[test]
fn parses_common_formats() {
    let f: FrameFormat = "7E1".parse().unwrap();
    assert_eq!(f.data_bits, DataBits::Seven);
    assert_eq!(f.parity, Parity::Even);
    assert_eq!(f.stop_bits, StopBits::One);

    let f: FrameFormat = "8O2".parse().unwrap();
    assert_eq!(f.data_bits, DataBits::Eight);
    assert_eq!(f.parity, Parity::Odd);
    assert_eq!(f.stop_bits, StopBits::Two);

    let f: FrameFormat = "5N1".parse().unwrap();
    assert_eq!(f.data_bits, DataBits::Five);

    let f: FrameFormat = "6E2".parse().unwrap();
    assert_eq!(f.data_bits, DataBits::Six);
}

#[test]
fn parity_letter_is_case_insensitive() {
    let lower: FrameFormat = "8e1".parse().unwrap();
    let upper: FrameFormat = "8E1".parse().unwrap();
    assert_eq!(lower, upper);
    assert_eq!(lower.to_string(), "8E1");
}

#[test]
fn rejects_bad_data_bits_naming_the_offender() {
    let e = "9N1".parse::<FrameFormat>().unwrap_err();
    assert!(e.contains("数据位"), "实际: {e}");
    assert!(e.contains('9'), "错误信息应指出是哪一位不合法，实际: {e}");
}

#[test]
fn rejects_bad_parity_naming_the_offender() {
    let e = "8X1".parse::<FrameFormat>().unwrap_err();
    assert!(e.contains("校验位"), "实际: {e}");
    assert!(e.contains('X'), "错误信息应指出是哪一位不合法，实际: {e}");
}

#[test]
fn bad_parity_error_echoes_what_the_user_typed() {
    let e = "8x1".parse::<FrameFormat>().unwrap_err();
    assert!(e.contains('x'), "应回显用户输入的小写 x，实际: {e}");
}

#[test]
fn rejects_bad_stop_bits_naming_the_offender() {
    let e = "8N3".parse::<FrameFormat>().unwrap_err();
    assert!(e.contains("停止位"), "实际: {e}");
    assert!(e.contains('3'), "错误信息应指出是哪一位不合法，实际: {e}");
}

#[test]
fn rejects_wrong_length() {
    for bad in ["8N", "8N11", "", "8"] {
        let e = bad.parse::<FrameFormat>().unwrap_err();
        assert!(e.contains("3 个字符"), "输入 {bad:?} 的错误信息: {e}");
    }
}

#[test]
fn display_and_parse_roundtrip_over_all_combinations() {
    let mut count = 0;
    for d in ['5', '6', '7', '8'] {
        for p in ['N', 'E', 'O'] {
            for s in ['1', '2'] {
                let text: String = [d, p, s].iter().collect();
                let parsed: FrameFormat = text.parse().unwrap();
                assert_eq!(parsed.to_string(), text);
                assert_eq!(text.parse::<FrameFormat>().unwrap(), parsed);
                count += 1;
            }
        }
    }
    assert_eq!(count, 24, "应覆盖 4×3×2 种组合");
}

#[test]
fn rejects_invalid_frame_format() {
    let e = FrameFormat::parse("8X1").unwrap_err();
    assert!(e.contains("校验位"), "错误信息应说明是校验位有问题，实际: {e}");
}

#[test]
fn format_errors_are_exact() {
    let err = |s| FrameFormat::parse(s).unwrap_err();
    assert_eq!(err("8\"1\n"), "帧格式必须是 3 个字符，如 8N1，收到 \"8\\\"1\\n\"");
    assert_eq!(err("4N1"), "数据位必须是 5-8，收到 '4'");
    assert_eq!(err("8m1"), "校验位必须是 N/E/O，收到 'm'");
    assert_eq!(err("8N0"), "停止位必须是 1 或 2，收到 '0'");
}

#[test]
fn format_errors_show_plain_characters_as_typed() {
    for c in ' '..='~' {
        if c == '\'' || c == '\\' {
            continue;
        }
        let err = |s: String| FrameFormat::parse(&s).unwrap_err();
        let shown = format!("'{}'", c);
        if !('5'..='8').contains(&c) {
            assert_eq!(err(format!("{}N1", c)), format!("数据位必须是 5-8，收到 {}", shown));
        }
        if !"NnEeOo".contains(c) {
            assert_eq!(err(format!("8{}1", c)), format!("校验位必须是 N/E/O，收到 {}", shown));
        }
        if c != '1' && c != '2' {
            assert_eq!(err(format!("8N{}", c)), format!("停止位必须是 1 或 2，收到 {}", shown));
        }
        if c != '"' {
            assert_eq!(
                err(format!("8N1{}", c)),
                format!("帧格式必须是 3 个字符，如 8N1，收到 \"8N1{}\"", c)
            );
        }
    }
}

#[test]
fn mock_returns_scripted_bytes() {
    let mut s = MockStream::new();
    s.feed(b"OK\r\n");
    assert_eq!(s.read(8).unwrap(), b"OK\r\n");
}

#[test]
fn mock_records_writes() {
    let mut s = MockStream::new();
    s.write_all(b"AT\r").unwrap();
    assert_eq!(s.written(), b"AT\r");
}

#[test]
fn mock_read_times_out_when_empty() {
    let mut s = MockStream::new();
    let err = s.read(4).unwrap_err();
    assert!(err.timed_out);
}

#[test]
fn mock_can_script_a_silent_round() {
    let mut s = MockStream::new();
    s.feed_timeout();
    s.feed(b"OK");
    assert!(s.read(8).unwrap_err().timed_out, "第一次读应表现为对端沉默");
    assert_eq!(s.read(8).unwrap(), b"OK", "沉默之后应读到下一段脚本");
}

#[test]
fn mock_reads_are_chunked_by_feed() {
    let mut s = MockStream::new();
    s.feed(b"AB");
    s.feed(b"CD");
    assert_eq!(s.read(16).unwrap(), b"AB");
    assert_eq!(s.read(16).unwrap(), b"CD");
}

#[test]
fn mock_gives_long_pieces_in_parts() {
    let mut s = MockStream::new();
    s.feed(b"ABCDE");
    s.feed(b"F");
    assert_eq!(s.read(2).unwrap(), b"AB");
    assert_eq!(s.read(2).unwrap(), b"CD");
    assert_eq!(s.read(2).unwrap(), b"E");
    assert_eq!(s.read(2).unwrap(), b"F");
}

#[test]
fn mock_forgets_what_was_written_when_told() {
    let mut s = MockStream::new();
    s.write_all(b"a").unwrap();
    s.clear_written();
    s.write_all(b"b").unwrap();
    s.flush().unwrap();
    assert_eq!(s.written(), b"b");
}

#[test]
fn reader_thread_turns_bytes_into_frame_events() {
    let mut mock = MockStream::new();
    mock.feed(&Frame::sabm(1).encode());
    let mut decoder = FrameDecoder::new(1024);
    let (events, next) = reader_step(&mut decoder, mock.read(1024));
    assert_eq!(next, ReaderNext::ReadOn);
    assert_eq!(events.len(), 1);
    match &events[0] {
        Event::Frame(f) => assert_eq!(f.ftype, FrameType::Sabm),
        other => panic!("期望 Frame，得到 {other:?}"),
    }
    let (events, next) = reader_step(&mut decoder, mock.read(1024));
    assert!(events.is_empty());
    assert_eq!(next, ReaderNext::Pause);
}

#[test]
fn reader_thread_reports_fcs_errors() {
    let mut mock = MockStream::new();
    let mut bad = Frame::sabm(1).encode();
    let n = bad.len();
    bad[n - 2] ^= 0xFF;
    mock.feed(&bad);
    mock.feed(&Frame::sabm(2).encode());

    let mut decoder = FrameDecoder::new(1024);
    let mut saw_err = false;
    let mut saw_frame = false;
    for _ in 0..2 {
        for ev in reader_step(&mut decoder, mock.read(1024)).0 {
            match ev {
                Event::FcsError(_) => saw_err = true,
                Event::Frame(_) => saw_frame = true,
                _ => {}
            }
        }
    }
    assert!(saw_err, "应报告 FCS 错误");
    assert!(saw_frame, "坏帧后应继续解出好帧");
}

#[test]
fn a_failed_read_is_the_last_one() {
    let mut decoder = FrameDecoder::new(1024);
    let failed = StreamError { timed_out: false, why: "gone".into() };
    let (events, next) = reader_step(&mut decoder, Err(failed));
    assert_eq!(next, ReaderNext::Stop);
    assert!(matches!(&events[..], [Event::SerialError(why)] if why == "gone"));
    let (events, next) = reader_step(&mut decoder, Ok(Vec::new()));
    assert!(events.is_empty());
    assert_eq!(next, ReaderNext::Pause);
}

#[test]
fn writer_thread_encodes_frames_to_the_port() {
    let mut mock = MockStream::new();
    for req in [TxRequest::Frame(Frame::sabm(0)), TxRequest::Shutdown] {
        match req.into_bytes() {
            Some(bytes) => mock.write_all(&bytes).unwrap(),
            None => break,
        }
    }
    assert_eq!(mock.written(), Frame::sabm(0).encode());
}

#[test]
fn writer_thread_passes_raw_bytes_through() {
    let mut mock = MockStream::new();
    for req in [TxRequest::Raw(b"AT\r".to_vec()), TxRequest::Shutdown] {
        match req.into_bytes() {
            Some(bytes) => mock.write_all(&bytes).unwrap(),
            None => break,
        }
    }
    assert_eq!(mock.written(), b"AT\r");
}

/// A port that asks to be read in pieces of one size and counts its reads.
struct Counting {
    sizes: Vec<usize>,
}

impl Port for Counting {
    fn read(&mut self, max: usize) -> Result<Vec<u8>, StreamError> {
        self.sizes.push(max);
        Ok(Vec::new())
    }

    fn write_all(&mut self, _bytes: &[u8]) -> Result<(), StreamError> {
        Ok(())
    }

    fn flush(&mut self) -> Result<(), StreamError> {
        Ok(())
    }
}

#[test]
fn reads_go_on_until_the_time_is_over() {
    let mut line = Line::new(Counting { sizes: Vec::new() });
    let cfg = AtConfig { attempts: 1, timeout: 20 * MILLISECOND, n1: 127 };
    let begun = std::time::Instant::now();
    assert!(matches!(enter_mux(&mut line, &cfg), Err(AtError::NoResponse)));
    assert!(begun.elapsed().as_millis() >= 20);
    let sizes = line.into_port().sizes;
    assert!(!sizes.is_empty());
    assert!(sizes.iter().all(|n| *n == 256));
}

#[test]
fn by_a_clock_that_stands_still_everything_is_in_time() {
    let mut s = MockStream::new();
    s.feed(b"");
    s.feed_timeout();
    s.feed(b"no");
    s.feed(b" ERROR here");
    s.feed(b"O");
    s.feed(b"K");
    s.feed(b"OK");
    let mut clock = StoppedClock::new(7);
    let cfg = AtConfig { attempts: 3, timeout: 1, n1: 64 };
    enter_mux_with(&mut s, &mut clock, &cfg).unwrap();
    assert_eq!(text(&s), "AT\rAT\rAT\rAT+CMUX=0,0,5,64,10,3,30,10,2\r");
    assert!(s.read(256).unwrap_err().timed_out, "脚本应已读完");
}

#[test]
fn without_time_the_answer_stays_unread() {
    let mut s = MockStream::new();
    s.feed(b"OK");
    let mut clock = StoppedClock::new(0);
    let cfg = AtConfig { timeout: 0, ..fast() };
    let err = enter_mux_with(&mut s, &mut clock, &cfg).unwrap_err();
    assert!(matches!(err, AtError::NoResponse));
    assert_eq!(text(&s), "AT\rAT\rAT\r");
    assert_eq!(s.read(8).unwrap(), b"OK");
}

#[test]
fn waits_end_at_the_timeout() {
    assert!(in_time(10, 10, 1));
    assert!(in_time(10, 14, 5));
    assert!(!in_time(10, 15, 5));
    assert!(!in_time(10, 10, 0));
    assert!(in_time(10, 3, 1), "时钟倒退视为未过时间");
    assert_eq!(StoppedClock::new(9).look(), 9);
    let mut c = MachineClock::start();
    let first = c.look();
    assert!(c.look() >= first);
}

#[test]
fn a_long_answer_is_read_in_parts() {
    let mut s = MockStream::new();
    let mut long = vec![b'x'; 255];
    long.extend_from_slice(b"OK");
    s.feed(&long);
    s.feed(b"ERROR: no");
    let mut clock = StoppedClock::new(0);
    match enter_mux_with(&mut s, &mut clock, &fast()) {
        Err(AtError::Rejected(words)) => assert_eq!(words, "ERROR: no"),
        other => panic!("{other:?}"),
    }
}
