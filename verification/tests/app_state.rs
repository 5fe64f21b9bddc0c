use cmux_tui::app::record::{Direction, Record};
use cmux_tui::app::state::{AppConfig, AppState, RawEntry, CONTROL_ITEMS, HELP_KEYS, SLOT_COUNT};
use cmux_tui::clock::Timestamp;
use cmux_tui::mux::frame::Frame;

#[test]
fn starts_with_two_empty_slots() {
    let s = AppState::new(AppConfig::default());
    assert_eq!(s.slots.len(), 2);
    assert!(s.slots.iter().all(|sl| sl.dlci.is_none()));
    assert_eq!(s.focus, 0);
}

#[test]
fn binding_a_dlci_occupies_a_slot() {
    let mut s = AppState::new(AppConfig::default());
    assert_eq!(s.bind(1), Some(0));
    assert_eq!(s.bind(3), Some(1));
    assert_eq!(s.bind(5), None, "只有两个槽位，第三个应被拒绝");
    assert_eq!(s.slots[0].dlci, Some(1));
    assert_eq!(s.slots[1].dlci, Some(3));
}

#[test]
fn rebinding_same_dlci_returns_existing_slot() {
    let mut s = AppState::new(AppConfig::default());
    s.bind(1);
    assert_eq!(s.bind(1), Some(0));
}

#[test]
fn unbinding_frees_the_slot() {
    let mut s = AppState::new(AppConfig::default());
    s.bind(1);
    s.unbind(1);
    assert!(s.slots[0].dlci.is_none());
    assert_eq!(s.bind(9), Some(0));
}

#[test]
fn records_route_to_the_slot_owning_the_dlci() {
    let mut s = AppState::new(AppConfig::default());
    s.bind(1);
    s.bind(3);
    s.push_record(Record::new(Direction::Rx, 3, b"ok".to_vec()));
    assert_eq!(s.slots[0].records.len(), 0);
    assert_eq!(s.slots[1].records.len(), 1);
}

#[test]
fn records_for_unbound_dlci_are_dropped_but_counted() {
    let mut s = AppState::new(AppConfig::default());
    s.push_record(Record::new(Direction::Rx, 7, b"x".to_vec()));
    assert!(s.slots.iter().all(|sl| sl.records.is_empty()));
    assert_eq!(s.unrouted, 1);
}

#[test]
fn ring_buffer_evicts_oldest_beyond_capacity() {
    let cfg = AppConfig { max_records: 3, ..AppConfig::default() };
    let mut s = AppState::new(cfg);
    s.bind(1);
    for i in 0..5u8 {
        s.push_record(Record::new(Direction::Rx, 1, vec![i]));
    }
    assert_eq!(s.slots[0].records.len(), 3);
    assert_eq!(s.slots[0].records.front().unwrap().bytes, vec![2]);
}

#[test]
fn focus_cycles_between_slots() {
    let mut s = AppState::new(AppConfig::default());
    s.focus_next();
    assert_eq!(s.focus, 1);
    s.focus_next();
    assert_eq!(s.focus, 0);
}

#[test]
fn target_dlci_follows_focus() {
    let mut s = AppState::new(AppConfig::default());
    s.bind(1);
    s.bind(3);
    assert_eq!(s.target_dlci(), Some(1));
    s.focus_next();
    assert_eq!(s.target_dlci(), Some(3));
}

#[test]
fn clearing_focused_slot_only_affects_that_slot() {
    let mut s = AppState::new(AppConfig::default());
    s.bind(1);
    s.bind(3);
    s.push_record(Record::new(Direction::Rx, 1, vec![1]));
    s.push_record(Record::new(Direction::Rx, 3, vec![3]));
    s.clear_focused();
    assert!(s.slots[0].records.is_empty());
    assert_eq!(s.slots[1].records.len(), 1);
}

#[test]
fn scrolling_up_pins_the_view_and_end_resumes_follow() {
    let mut s = AppState::new(AppConfig::default());
    s.bind(1);
    for i in 0..10u8 {
        s.push_record(Record::new(Direction::Rx, 1, vec![i]));
    }
    assert!(s.slots[0].follow);
    s.scroll_focused(-3);
    assert!(!s.slots[0].follow);
    assert_eq!(s.slots[0].scroll, 3);
    s.follow_focused();
    assert!(s.slots[0].follow);
}

#[test]
fn counters_track_traffic_and_errors() {
    let mut s = AppState::new(AppConfig::default());
    s.stats.rx_frames += 2;
    s.stats.fcs_errors += 1;
    assert_eq!(s.stats.rx_frames, 2);
    assert_eq!(s.stats.fcs_errors, 1);
}

#[test]
fn raw_log_is_capped() {
    let cfg = AppConfig { max_records: 2, ..AppConfig::default() };
    let mut s = AppState::new(cfg);
    for i in 0..5 {
        s.push_raw(RawEntry::bad(&format!("垃圾{i}"), vec![0xFF]));
    }
    assert_eq!(s.raw_log.len(), 2);
    assert!(s.raw_log.front().unwrap().summary.contains('3'));
}

#[test]
fn raw_entry_from_frame_summarises_header() {
    let e = RawEntry::from_frame(&Frame::uih(1, b"abc".to_vec()), true);
    assert!(e.summary.contains("DLCI 1"), "实际: {}", e.summary);
    assert!(e.summary.contains("UIH"), "实际: {}", e.summary);
    assert!(e.summary.contains("len=3"), "实际: {}", e.summary);
    assert!(e.ok);
}

#[test]
fn bad_raw_entry_is_marked_in_its_line() {
    let e = RawEntry::bad("FCS 不匹配", vec![0xF9, 0x03]);
    assert!(e.line().contains("[FCS 失败]"), "实际: {}", e.line());
}

#[test]
fn raw_lines_are_exact() {
    let ts = Timestamp::new(45_296, 789_000_000).unwrap();
    let sent = RawEntry::frame_at(ts, &Frame::sabm(2), true);
    assert_eq!(sent.line(), "12:34:56.789 TX DLCI 2 SABM P/F=1 len=0");
    assert_eq!(sent.bytes, Frame::sabm(2).encode());
    let got = RawEntry::frame_at(ts, &Frame::uih(2, vec![1, 2]), false);
    assert_eq!(got.line(), "12:34:56.789 RX DLCI 2 UIH P/F=0 len=2");
    let bad = RawEntry::bad_at(ts, "x", vec![]);
    assert_eq!(bad.line(), "12:34:56.789 RX x [FCS 失败]");
    assert!(!bad.outgoing);
}

#[test]
fn defaults_of_the_settings() {
    let cfg = AppConfig::default();
    assert_eq!(cfg.max_records, 5000);
    assert_eq!(cfg.merge_window, 5_000_000);
    assert_eq!(SLOT_COUNT, 2);
    assert_eq!(CONTROL_ITEMS.len(), 3);
    assert!(HELP_KEYS.iter().all(|(k, what)| !k.is_empty() && !what.is_empty()));
}

#[test]
fn scrolling_stops_at_both_ends() {
    let mut s = AppState::new(AppConfig::default());
    s.bind(1);
    for i in 0..4u8 {
        s.push_record(Record::new(Direction::Rx, 1, vec![i]));
    }
    s.scroll_focused(-100);
    assert_eq!(s.slots[0].scroll, 4);
    s.scroll_focused(isize::MAX);
    assert_eq!(s.slots[0].scroll, 0);
    assert!(s.slots[0].follow);
    s.scroll_focused(isize::MIN);
    assert_eq!(s.slots[0].scroll, 4);
}

#[test]
fn a_pinned_view_stays_where_it_is() {
    let mut s = AppState::new(AppConfig::default());
    s.bind(1);
    for i in 0..4u8 {
        s.push_record(Record::new(Direction::Rx, 1, vec![i]));
    }
    s.scroll_focused(-2);
    s.push_record(Record::new(Direction::Rx, 1, vec![9]));
    assert_eq!(s.slots[0].scroll, 2);
    assert!(!s.slots[0].follow);
}

#[test]
fn focus_goes_only_to_slots_that_exist() {
    let mut s = AppState::new(AppConfig::default());
    s.set_focus(1);
    assert_eq!(s.focus, 1);
    s.set_focus(2);
    assert_eq!(s.focus, 1);
}

#[test]
fn nothing_is_kept_where_nothing_may_be() {
    let cfg = AppConfig { max_records: 0, ..AppConfig::default() };
    let mut s = AppState::new(cfg);
    s.bind(1);
    s.push_record(Record::info(1, "x"));
    s.push_raw(RawEntry::bad("x", vec![]));
    assert!(s.slots[0].records.is_empty());
    assert!(s.raw_log.is_empty());
}

#[test]
fn binding_goes_to_the_slot_asked_for_if_it_is_free() {
    let mut s = AppState::new(AppConfig::default());
    assert_eq!(s.bind_in(5, 1), Some(1));
    assert_eq!(s.bind_in(5, 0), Some(1), "已绑定则保持原槽位");
    assert_eq!(s.bind_in(6, 1), Some(0), "占用时取空闲槽位");
    assert_eq!(s.bind_in(7, 1), None);
    assert_eq!(s.slots[0].dlci, Some(6));
    assert_eq!(s.slots[1].dlci, Some(5));
}
