use cmux_tui::app::counters::COUNTER_STEP;
use cmux_tui::app::event::{Event, TxRequest};
use cmux_tui::app::keymap::{Command, KeyCode, KeyEvent};
use cmux_tui::app::record::Direction;
use cmux_tui::app::runtime::{Effect, Runtime};
use cmux_tui::app::state::{AppConfig, LinkState};
use cmux_tui::clock::Timestamp;
use cmux_tui::mux::control::ControlMessage;
use cmux_tui::mux::frame::{Frame, FrameType};
use cmux_tui::mux::session::{DlcState, SessionConfig, MILLISECOND, SECOND};

const NOW: u64 = 500 * SECOND;

fn setup() -> Runtime {
    Runtime::new(AppConfig::default(), SessionConfig::default())
}

/// Takes out the frames on their way to the writing thread.
fn sent_frames(rt: &mut Runtime) -> Vec<Frame> {
    rt.take_effects()
        .into_iter()
        .filter_map(|e| match e {
            Effect::Transmit(TxRequest::Frame(f)) => Some(f),
            _ => None,
        })
        .collect()
}

#[test]
fn opening_a_dlc_sends_sabm_and_binds_the_slot() {
    let mut rt = setup();
    rt.exec(Command::OpenDlc { dlci: 1, slot: 0 }, NOW);

    let frames = sent_frames(&mut rt);
    assert_eq!(frames.len(), 1);
    assert_eq!(frames[0].ftype, FrameType::Sabm);
    assert_eq!(rt.state.slots[0].dlci, Some(1));
    assert!(matches!(rt.state.slots[0].state, DlcState::Opening { .. }));
}

#[test]
fn ua_marks_the_channel_up_and_logs_a_notice() {
    let mut rt = setup();
    rt.exec(Command::OpenDlc { dlci: 1, slot: 0 }, NOW);
    rt.on_event(Event::Frame(Frame::ua(1)), NOW);

    assert_eq!(rt.state.slots[0].state, DlcState::Open);
    let last = rt.state.slots[0].records.back().unwrap();
    assert!(
        last.note.as_ref().unwrap().contains("建链成功"),
        "实际: {last:?}"
    );
}

#[test]
fn incoming_uih_becomes_an_rx_record() {
    let mut rt = setup();
    rt.exec(Command::OpenDlc { dlci: 1, slot: 0 }, NOW);
    rt.on_event(Event::Frame(Frame::ua(1)), NOW);
    rt.on_event(Event::Frame(Frame::uih(1, b"OK\r\n".to_vec())), NOW);
    rt.on_event(Event::Tick, NOW + 50 * MILLISECOND);

    let last = rt.state.slots[0].records.back().unwrap();
    assert_eq!(last.bytes, b"OK\r\n");
    assert_eq!(last.dir, Direction::Rx);
    assert_eq!(rt.state.stats.rx_frames, 2, "UA 与 UIH 都计入收帧数");
}

#[test]
fn sending_records_a_tx_entry_and_queues_a_frame() {
    let mut rt = setup();
    rt.exec(Command::OpenDlc { dlci: 1, slot: 0 }, NOW);
    rt.on_event(Event::Frame(Frame::ua(1)), NOW);
    let _ = sent_frames(&mut rt);

    rt.exec(Command::Send { dlci: 1, bytes: b"AT\r".to_vec() }, NOW);

    let frames = sent_frames(&mut rt);
    assert_eq!(frames.len(), 1);
    assert_eq!(frames[0].ftype, FrameType::Uih);
    assert_eq!(frames[0].info, b"AT\r");
    rt.on_event(Event::Tick, NOW + 50 * MILLISECOND);
    let last = rt.state.slots[0].records.back().unwrap();
    assert_eq!(last.dir, Direction::Tx);
    assert_eq!(last.bytes, b"AT\r");
    assert_eq!(rt.state.stats.tx_frames, 2, "SABM 与 UIH 都计入发帧数");
}

#[test]
fn sending_on_a_channel_that_is_not_open_is_refused() {
    let mut rt = setup();
    rt.state.bind(1);
    rt.exec(Command::Send { dlci: 1, bytes: b"AT\r".to_vec() }, NOW);

    assert!(sent_frames(&mut rt).is_empty(), "未建链不应真的发出去");
    let last = rt.state.slots[0].records.back().unwrap();
    assert_eq!(last.dir, Direction::Error);
}

#[test]
fn successful_dlc_open_corrects_a_stale_mux_down() {
    let mut rt = setup();
    rt.state.link = LinkState::Down;
    rt.exec(Command::OpenDlc { dlci: 1, slot: 0 }, NOW);
    rt.on_event(Event::Frame(Frame::ua(1)), NOW);
    assert_eq!(rt.state.link, LinkState::Up, "建链成功后不该还显示 MUX DOWN");
}

#[test]
fn dm_marks_the_channel_failed_with_a_reason() {
    let mut rt = setup();
    rt.exec(Command::OpenDlc { dlci: 1, slot: 0 }, NOW);
    let dm = Frame { dlci: 1, cr: false, pf: true, ftype: FrameType::Dm, info: vec![] };
    rt.on_event(Event::Frame(dm), NOW);

    assert_eq!(rt.state.slots[0].state, DlcState::Failed);
    let last = rt.state.slots[0].records.back().unwrap();
    assert!(last.note.as_ref().unwrap().contains("DM"), "实际: {last:?}");
}

#[test]
fn fcs_error_increments_counter_and_lands_in_raw_log() {
    let mut rt = setup();
    rt.on_event(Event::FcsError(vec![0xF9, 0x03, 0x3F, 0x01, 0x00]), NOW);
    assert_eq!(rt.state.stats.fcs_errors, 1);
    assert_eq!(rt.state.raw_log.len(), 1);
    assert!(!rt.state.raw_log.back().unwrap().ok);
}

#[test]
fn garbage_bytes_are_counted_and_shown_in_raw_log() {
    let mut rt = setup();
    rt.on_event(Event::Garbage(vec![0x11, 0x22, 0x33]), NOW);
    assert_eq!(rt.state.stats.garbage_bytes, 3);
    assert_eq!(rt.state.raw_log.len(), 1);
}

#[test]
fn serial_error_takes_the_link_down_and_downs_all_channels() {
    let mut rt = setup();
    rt.exec(Command::OpenDlc { dlci: 1, slot: 0 }, NOW);
    rt.on_event(Event::Frame(Frame::ua(1)), NOW);
    assert_eq!(rt.state.slots[0].state, DlcState::Open);

    rt.on_event(Event::SerialError("设备已拔出".into()), NOW);

    assert_eq!(rt.state.link, LinkState::Down);
    assert_eq!(rt.state.slots[0].state, DlcState::Closed);
    let notice = rt.state.notice.as_ref().unwrap();
    assert!(notice.contains("设备已拔出"), "实际: {notice}");
    assert!(notice.contains("重启"), "应告诉用户下一步怎么办，实际: {notice}");
}

#[test]
fn tick_retransmits_sabm_after_the_timeout() {
    let cfg = SessionConfig { open_timeout: 10 * MILLISECOND, max_attempts: 3 };
    let mut rt = Runtime::new(AppConfig::default(), cfg);
    rt.exec(Command::OpenDlc { dlci: 1, slot: 0 }, NOW);
    let _ = sent_frames(&mut rt);

    rt.on_event(Event::Tick, NOW + 20 * MILLISECOND);

    let frames = sent_frames(&mut rt);
    assert_eq!(frames.len(), 1, "超时应重发 SABM");
    assert_eq!(frames[0].ftype, FrameType::Sabm);
}

#[test]
fn close_mux_sends_cld_on_the_control_channel() {
    let mut rt = setup();
    rt.exec(Command::CloseMux, NOW);
    let frames = sent_frames(&mut rt);
    assert_eq!(frames.len(), 1);
    assert_eq!(frames[0].dlci, 0, "CLD 走控制通道");
    assert_eq!(frames[0].ftype, FrameType::Uih);
    assert_eq!(frames[0].info, ControlMessage::Cld.encode_command());
}

#[test]
fn close_dlc_sends_disc() {
    let mut rt = setup();
    rt.exec(Command::OpenDlc { dlci: 1, slot: 0 }, NOW);
    rt.on_event(Event::Frame(Frame::ua(1)), NOW);
    let _ = sent_frames(&mut rt);

    rt.exec(Command::CloseDlc { dlci: 1 }, NOW);
    let frames = sent_frames(&mut rt);
    assert_eq!(frames[0].ftype, FrameType::Disc);
}

#[test]
fn msc_is_sent_on_the_control_channel_for_the_target_dlci() {
    let mut rt = setup();
    rt.exec(Command::SendMsc { dlci: 3 }, NOW);
    let frames = sent_frames(&mut rt);
    assert_eq!(frames[0].dlci, 0);
    let expected = ControlMessage::Msc { dlci: 3, signals: 0x8D }.encode_command();
    assert_eq!(frames[0].info, expected);
}

#[test]
fn quit_stops_the_loop() {
    let mut rt = setup();
    assert!(rt.running);
    rt.exec(Command::Quit, NOW);
    assert!(!rt.running);
}

#[test]
fn control_messages_from_peer_are_shown_as_notice() {
    let mut rt = setup();
    let info = ControlMessage::Cld.encode_command();
    rt.on_event(Event::Frame(Frame::uih(0, info)), NOW);
    assert!(
        rt.state.notice.as_ref().unwrap().contains("CLD"),
        "实际: {:?}",
        rt.state.notice
    );
}

#[test]
fn every_frame_is_mirrored_into_the_raw_log() {
    let mut rt = setup();
    rt.exec(Command::OpenDlc { dlci: 1, slot: 0 }, NOW);
    rt.on_event(Event::Frame(Frame::ua(1)), NOW);
    assert_eq!(rt.state.raw_log.len(), 2);
    assert!(rt.state.raw_log[0].outgoing);
    assert!(!rt.state.raw_log[1].outgoing);
}

fn opened() -> Runtime {
    let mut rt = setup();
    rt.exec(Command::OpenDlc { dlci: 1, slot: 0 }, NOW);
    rt.on_event(Event::Frame(Frame::ua(1)), NOW);
    rt
}

fn rx_records(rt: &Runtime) -> Vec<Vec<u8>> {
    rt.state.slots[0]
        .records
        .iter()
        .filter(|r| r.dir == Direction::Rx)
        .map(|r| r.bytes.clone())
        .collect()
}

#[test]
fn byte_at_a_time_frames_merge_into_one_record() {
    let mut rt = opened();
    for (i, b) in b"ATI".iter().enumerate() {
        rt.on_event(
            Event::Frame(Frame::uih(1, vec![*b])),
            NOW + i as u64 * 2 * MILLISECOND,
        );
    }
    rt.on_event(Event::Tick, NOW + 50 * MILLISECOND);

    assert_eq!(rx_records(&rt), vec![b"ATI".to_vec()], "三个 1 字节帧应合成一条");
}

#[test]
fn merged_record_keeps_the_first_frames_timestamp() {
    let mut rt = opened();
    rt.on_event(Event::Frame(Frame::uih(1, b"A".to_vec())), NOW);
    let first_ts = rt.pending.as_ref().expect("应在累积中").ts;
    rt.on_event(Event::Frame(Frame::uih(1, b"B".to_vec())), NOW + 2 * MILLISECOND);
    rt.on_event(Event::Tick, NOW + 50 * MILLISECOND);

    let rec = rt.state.slots[0].records.back().unwrap();
    assert_eq!(rec.bytes, b"AB");
    assert_eq!(rec.ts, first_ts, "时间戳应是首帧到达的时刻");
}

#[test]
fn frames_beyond_the_window_stay_separate() {
    let mut rt = opened();
    rt.on_event(Event::Frame(Frame::uih(1, b"A".to_vec())), NOW);
    rt.on_event(Event::Frame(Frame::uih(1, b"B".to_vec())), NOW + 30 * MILLISECOND);
    rt.on_event(Event::Tick, NOW + 100 * MILLISECOND);

    assert_eq!(rx_records(&rt), vec![b"A".to_vec(), b"B".to_vec()]);
}

#[test]
fn different_channels_never_merge() {
    let mut rt = opened();
    rt.exec(Command::OpenDlc { dlci: 3, slot: 1 }, NOW);
    rt.on_event(Event::Frame(Frame::ua(3)), NOW);

    rt.on_event(Event::Frame(Frame::uih(1, b"A".to_vec())), NOW);
    rt.on_event(Event::Frame(Frame::uih(3, b"B".to_vec())), NOW);
    rt.on_event(Event::Tick, NOW + 50 * MILLISECOND);

    assert_eq!(rx_records(&rt), vec![b"A".to_vec()], "通道 1 只该有自己的数据");
    let slot1: Vec<_> = rt.state.slots[1]
        .records
        .iter()
        .filter(|r| r.dir == Direction::Rx)
        .map(|r| r.bytes.clone())
        .collect();
    assert_eq!(slot1, vec![b"B".to_vec()]);
}

#[test]
fn tx_and_rx_never_merge_into_each_other() {
    let mut rt = opened();
    rt.on_event(Event::Frame(Frame::uih(1, b"A".to_vec())), NOW);
    rt.exec(Command::Send { dlci: 1, bytes: b"B".to_vec() }, NOW);
    rt.on_event(Event::Tick, NOW + 50 * MILLISECOND);

    let dirs: Vec<_> = rt.state.slots[0]
        .records
        .iter()
        .filter(|r| r.note.is_none())
        .map(|r| (r.dir, r.bytes.clone()))
        .collect();
    assert_eq!(
        dirs,
        vec![
            (Direction::Rx, b"A".to_vec()),
            (Direction::Tx, b"B".to_vec()),
        ]
    );
}

#[test]
fn a_notice_flushes_whatever_was_accumulating() {
    let mut rt = opened();
    rt.on_event(Event::Frame(Frame::uih(1, b"A".to_vec())), NOW);
    rt.exec(Command::CloseDlc { dlci: 1 }, NOW);

    let kinds: Vec<_> = rt.state.slots[0]
        .records
        .iter()
        .map(|r| r.note.is_some())
        .collect();
    assert_eq!(kinds.last(), Some(&true), "最后应是关闭提示");
    assert!(
        !kinds[kinds.len() - 2],
        "关闭提示之前应先冲刷出累积的数据"
    );
}

#[test]
fn shutdown_flushes_pending_data() {
    let mut rt = opened();
    rt.on_event(Event::Frame(Frame::uih(1, b"AT".to_vec())), NOW);
    rt.shutdown(NOW);
    assert_eq!(rx_records(&rt), vec![b"AT".to_vec()], "退出前应冲刷未落盘的数据");
}

#[test]
fn zero_window_disables_merging() {
    let cfg = AppConfig { merge_window: 0, ..AppConfig::default() };
    let mut rt = Runtime::new(cfg, SessionConfig::default());
    rt.exec(Command::OpenDlc { dlci: 1, slot: 0 }, NOW);
    rt.on_event(Event::Frame(Frame::ua(1)), NOW);

    rt.on_event(Event::Frame(Frame::uih(1, b"A".to_vec())), NOW);
    rt.on_event(Event::Frame(Frame::uih(1, b"B".to_vec())), NOW);

    assert_eq!(
        rx_records(&rt),
        vec![b"A".to_vec(), b"B".to_vec()],
        "窗口为零时应逐帧显示，且不经缓冲立即可见"
    );
}

#[test]
fn shutdown_closes_channels_and_sends_cld() {
    let mut rt = setup();
    rt.exec(Command::OpenDlc { dlci: 1, slot: 0 }, NOW);
    rt.on_event(Event::Frame(Frame::ua(1)), NOW);
    let _ = sent_frames(&mut rt);

    rt.shutdown(NOW);

    let frames = sent_frames(&mut rt);
    assert!(
        frames.iter().any(|f| f.ftype == FrameType::Disc),
        "应对已建链通道发 DISC"
    );
    assert!(
        frames
            .iter()
            .any(|f| f.dlci == 0 && f.ftype == FrameType::Uih),
        "应在控制通道发 CLD"
    );
}

fn moment() -> Timestamp {
    Timestamp::new(1_706_727_852, 331_000_000).unwrap()
}

#[test]
fn shutdown_ends_with_the_word_to_stop() {
    let mut rt = opened();
    rt.log_opened("x.log", Ok(()));
    rt.shutdown(NOW);
    let effects = rt.take_effects();
    let n = effects.len();
    assert!(matches!(effects[n - 1], Effect::Transmit(TxRequest::Shutdown)));
    assert!(matches!(effects[n - 2], Effect::FlushLog));
    assert!(rt.pending.is_none());
}

#[test]
fn the_window_is_counted_from_the_last_piece() {
    let mut rt = opened();
    for i in 0..10 {
        rt.on_event(Event::Frame(Frame::uih(1, vec![i])), NOW + u64::from(i) * 5 * MILLISECOND);
    }
    rt.on_event(Event::Tick, NOW + 50 * MILLISECOND);
    assert!(rx_records(&rt).is_empty(), "窗口内不应冲刷");
    rt.on_event(Event::Tick, NOW + 50 * MILLISECOND + 1);
    assert_eq!(rx_records(&rt), vec![(0..10).collect::<Vec<u8>>()]);
}

#[test]
fn a_third_channel_takes_the_slot_it_is_given() {
    let mut rt = opened();
    rt.exec(Command::OpenDlc { dlci: 3, slot: 1 }, NOW);
    rt.exec(Command::OpenDlc { dlci: 5, slot: 1 }, NOW);
    assert_eq!(rt.state.slots[0].dlci, Some(1));
    assert_eq!(rt.state.slots[1].dlci, Some(5));
    rt.exec(Command::OpenDlc { dlci: 1, slot: 1 }, NOW);
    assert_eq!(rt.state.slots[0].dlci, Some(1));
    assert_eq!(rt.state.slots[1].dlci, None);
}

#[test]
fn a_channel_is_opened_in_the_slot_that_was_asked_for() {
    let mut rt = setup();
    rt.exec(Command::OpenDlc { dlci: 7, slot: 1 }, NOW);
    assert_eq!(rt.state.slots[0].dlci, None);
    assert_eq!(rt.state.slots[1].dlci, Some(7));
    assert_eq!(rt.state.slots[1].state, DlcState::Opening { attempts: 1 });
    assert_eq!(sent_frames(&mut rt), vec![Frame::sabm(7)]);

    let mut rt = setup();
    rt.state.focus = 1;
    for code in [KeyCode::Char('7'), KeyCode::Enter] {
        if rt.state.dialog.is_none() {
            let open = KeyEvent { code: KeyCode::Char('o'), ctrl: true };
            rt.dispatch(Event::Key(open), NOW);
        }
        rt.dispatch(Event::Key(KeyEvent { code, ctrl: false }), NOW);
    }
    assert_eq!(rt.state.target_dlci(), Some(7));
}

#[test]
fn messages_are_exact() {
    let mut rt = opened();
    rt.exec_at(Command::Send { dlci: 8, bytes: vec![1] }, NOW, moment());
    rt.exec_at(Command::SendMsc { dlci: 1 }, NOW, moment());
    assert_eq!(rt.state.notice.as_deref(), Some("已发送 MSC DLCI 1 信号 0x8D"));
    rt.exec_at(Command::CloseMux, NOW, moment());
    assert_eq!(rt.state.notice.as_deref(), Some("已发送 CLD，复用即将关闭"));
    rt.on_event_at(Event::Frame(Frame::uih(0, vec![0xC1, 0x01])), NOW, moment());
    assert_eq!(rt.state.notice.as_deref(), Some("控制通道响应：CLD 关闭复用"));
    rt.on_event_at(Event::Frame(Frame::uih(0, vec![0xC3, 0x01])), NOW, moment());
    assert_eq!(rt.state.notice.as_deref(), Some("控制通道命令：CLD 关闭复用"));
    rt.on_event_at(Event::SerialError("x".into()), NOW, moment());
    assert_eq!(rt.state.notice.as_deref(), Some("串口错误：x — 请退出并重启工具"));
    rt.on_event_at(Event::Garbage(vec![0; 7]), NOW, moment());
    assert_eq!(rt.state.raw_log.back().unwrap().summary, "无法成帧的 7 字节");
    rt.on_event_at(Event::FcsError(vec![0; 7]), NOW, moment());
    assert_eq!(rt.state.raw_log.back().unwrap().summary, "FCS 不匹配");
    assert_eq!(rt.state.unrouted, 1);
    let notes: Vec<String> = rt.state.slots[0]
        .records
        .iter()
        .map(|r| r.note.clone().unwrap())
        .collect();
    assert_eq!(notes, vec!["发起建链 (SABM)", "建链成功"]);
}

#[test]
fn logging_goes_by_way_of_the_effects() {
    let mut rt = setup();
    rt.state.bind(1);
    rt.exec_at(Command::ToggleLog, NOW, moment());
    match &rt.take_effects()[..] {
        [Effect::OpenLog { path, first_line }] => {
            assert_eq!(path, "cmux-20240131-190412.log");
            assert_eq!(first_line, "==== cmux-tui 会话日志 2024-01-31 19:04:12 ====\n");
        }
        other => panic!("{other:?}"),
    }
    assert!(!rt.logging);
    rt.log_opened("cmux-20240131-190412.log", Ok(()));
    assert!(rt.logging);
    assert_eq!(rt.state.notice.as_deref(), Some("正在记录到 cmux-20240131-190412.log"));
    assert_eq!(rt.log_path.as_deref(), Some("cmux-20240131-190412.log"));

    rt.exec_at(Command::Send { dlci: 1, bytes: vec![1] }, NOW, moment());
    match &rt.take_effects()[..] {
        [Effect::Log(line)] => {
            assert_eq!(line, "19:04:12.331 DLCI 1 !! 通道未建链，无法发送\n")
        }
        other => panic!("{other:?}"),
    }

    rt.exec_at(Command::ToggleLog, NOW, moment());
    assert!(matches!(rt.take_effects()[..], [Effect::FlushLog, Effect::CloseLog]));
    assert!(!rt.logging);
    assert_eq!(rt.state.notice.as_deref(), Some("已停止记录日志"));

    rt.exec_at(Command::ToggleLog, NOW, Timestamp::new(0, 0).unwrap());
    match &rt.take_effects()[..] {
        [Effect::OpenLog { path, .. }] => assert_eq!(path, "cmux-20240131-190412.log"),
        other => panic!("{other:?}"),
    }
    rt.log_opened("cmux-20240131-190412.log", Err("拒绝访问".into()));
    assert!(!rt.logging);
    assert_eq!(rt.state.notice.as_deref(), Some("无法打开日志文件：拒绝访问"));
}

#[test]
fn keys_are_dispatched_by_way_of_the_screen() {
    let mut rt = opened();
    let _ = sent_frames(&mut rt);
    let press = |code| Event::Key(KeyEvent { code, ctrl: false });
    rt.dispatch(press(KeyCode::Char('A')), NOW);
    rt.dispatch(press(KeyCode::Enter), NOW);
    assert_eq!(sent_frames(&mut rt), vec![Frame::uih(1, b"A\r".to_vec())]);
    rt.dispatch(Event::FcsError(vec![]), NOW);
    assert_eq!(rt.state.stats.fcs_errors, 1);
    rt.dispatch(Event::Key(KeyEvent { code: KeyCode::Char('q'), ctrl: true }), NOW);
    assert!(!rt.running);
    let mut other = setup();
    other.on_event(press(KeyCode::Char('A')), NOW);
    assert_eq!(other.state.input.buffer, "");
}

#[test]
fn requests_turn_into_bytes() {
    assert_eq!(TxRequest::Frame(Frame::sabm(1)).into_bytes(), Some(Frame::sabm(1).encode()));
    assert_eq!(TxRequest::Raw(b"AT\r".to_vec()).into_bytes(), Some(b"AT\r".to_vec()));
    assert_eq!(TxRequest::Shutdown.into_bytes(), None);
}

#[test]
fn no_data_is_lost_on_its_way_to_the_screen() {
    let mut rt = opened();
    let data: Vec<u8> = (0..200).collect();
    let mut now = NOW;
    let mut from = 0;
    for (i, len) in [1usize, 7, 1, 40, 3, 1, 100, 47].into_iter().enumerate() {
        let piece = data[from..from + len].to_vec();
        from += len;
        rt.on_event(Event::Frame(Frame::uih(1, piece)), now);
        now += [1u64, 4, 9, 2, 30, 5][i % 6] * MILLISECOND;
        if i == 3 {
            rt.exec(Command::Send { dlci: 1, bytes: vec![0xAA] }, now);
        }
    }
    rt.shutdown(now);
    assert_eq!(from, data.len());
    assert_eq!(rx_records(&rt).concat(), data);
}

#[test]
fn effects_wait_in_order_until_they_are_taken() {
    let mut rt = setup();
    rt.exec(Command::CloseMux, NOW);
    rt.exec(Command::SendMsc { dlci: 2 }, NOW);
    rt.on_event(Event::Frame(Frame::sabm(9)), NOW);
    let infos: Vec<(u8, FrameType)> =
        sent_frames(&mut rt).iter().map(|f| (f.dlci, f.ftype)).collect();
    assert_eq!(
        infos,
        vec![(0, FrameType::Uih), (0, FrameType::Uih), (9, FrameType::Ua)]
    );
    assert!(rt.take_effects().is_empty());
}

#[test]
fn the_busiest_tick_stays_within_the_step_of_the_counters() {
    let cfg = SessionConfig { open_timeout: 1, max_attempts: 1 };
    let mut rt = Runtime::new(AppConfig::default(), cfg);
    for d in 0..=255u8 {
        rt.session.open(d, NOW);
    }
    rt.on_event(Event::Tick, NOW + 1);
    assert_eq!(rt.state.unrouted, 256);
    assert!(rt.state.unrouted < COUNTER_STEP);
    assert!(rt.state.notice.is_none());
}

#[test]
fn each_run_of_frames_is_one_record() {
    let mut rt = opened();
    let gaps = [0u64, 5, 5, 6, 1, 1, 100, 5];
    let mut now = NOW;
    for (i, gap) in gaps.iter().enumerate() {
        now += gap * MILLISECOND;
        let ts = Timestamp::new(i as i64, 0).unwrap();
        rt.on_event_at(Event::Frame(Frame::uih(1, vec![i as u8])), now, ts);
    }
    let raw = rt.state.raw_log.len();
    rt.on_event(Event::Tick, now + 5 * MILLISECOND);
    assert_eq!(rx_records(&rt), vec![vec![0, 1, 2], vec![3, 4, 5]]);
    rt.on_event(Event::Tick, now + 5 * MILLISECOND + 1);
    assert_eq!(rx_records(&rt), vec![vec![0, 1, 2], vec![3, 4, 5], vec![6, 7]]);
    let times: Vec<String> = rt.state.slots[0]
        .records
        .iter()
        .filter(|r| r.dir == Direction::Rx)
        .map(|r| r.ts.time_text())
        .collect();
    assert_eq!(times, vec!["00:00:00.000", "00:00:03.000", "00:00:06.000"]);
    assert_eq!(raw, 2 + gaps.len(), "原始帧视图逐帧记录");
}
