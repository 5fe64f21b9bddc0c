use cmux_tui::mux::control::ControlMessage;
use cmux_tui::mux::frame::{Frame, FrameType};
use cmux_tui::mux::session::{Action, DlcState, Session, SessionConfig, MILLISECOND, SECOND};

fn t0() -> u64 {
    1_000 * SECOND
}

#[test]
fn open_emits_sabm_and_enters_opening() {
    let mut s = Session::new(SessionConfig::default());
    let acts = s.open(1, t0());
    assert_eq!(acts.len(), 1);
    match &acts[0] {
        Action::Send(f) => {
            assert_eq!(f.ftype, FrameType::Sabm);
            assert_eq!(f.dlci, 1);
        }
        other => panic!("期望 Send(SABM)，得到 {other:?}"),
    }
    assert!(matches!(s.state(1), DlcState::Opening { .. }));
}

#[test]
fn ua_completes_the_open() {
    let mut s = Session::new(SessionConfig::default());
    s.open(1, t0());
    let acts = s.on_frame(&Frame::ua(1), t0());
    assert_eq!(s.state(1), DlcState::Open);
    assert!(acts.iter().any(|a| matches!(a, Action::Opened(1))));
}

#[test]
fn dm_fails_immediately_without_retry() {
    let mut s = Session::new(SessionConfig::default());
    s.open(1, t0());
    let dm = Frame { dlci: 1, cr: false, pf: true, ftype: FrameType::Dm, info: vec![] };
    let acts = s.on_frame(&dm, t0());
    assert_eq!(s.state(1), DlcState::Failed);
    assert!(acts.iter().any(|a| matches!(a, Action::Failed(1, _))));
    assert!(
        !acts.iter().any(|a| matches!(a, Action::Send(_))),
        "收到 DM 不应重试"
    );
}

#[test]
fn timeout_retries_up_to_limit_then_fails() {
    let cfg = SessionConfig { open_timeout: 100 * MILLISECOND, max_attempts: 3 };
    let mut s = Session::new(cfg);
    let start = t0();
    s.open(1, start);

    let mut now = start;
    for i in 1..3 {
        now += 101 * MILLISECOND;
        let acts = s.tick(now);
        assert!(
            acts.iter()
                .any(|a| matches!(a, Action::Send(f) if f.ftype == FrameType::Sabm)),
            "第 {i} 次超时应重发 SABM"
        );
        assert!(matches!(s.state(1), DlcState::Opening { .. }));
    }

    now += 101 * MILLISECOND;
    let acts = s.tick(now);
    assert_eq!(s.state(1), DlcState::Failed);
    assert!(acts.iter().any(|a| matches!(a, Action::Failed(1, _))));
}

#[test]
fn tick_does_nothing_before_deadline() {
    let cfg = SessionConfig { open_timeout: 100 * MILLISECOND, ..SessionConfig::default() };
    let mut s = Session::new(cfg);
    let start = t0();
    s.open(1, start);
    let acts = s.tick(start + 50 * MILLISECOND);
    assert!(acts.is_empty());
}

#[test]
fn uih_on_open_channel_yields_data() {
    let mut s = Session::new(SessionConfig::default());
    s.open(1, t0());
    s.on_frame(&Frame::ua(1), t0());
    let acts = s.on_frame(&Frame::uih(1, b"hi".to_vec()), t0());
    assert!(acts.iter().any(|a| matches!(a, Action::Data(1, d) if d == b"hi")));
}

#[test]
fn close_emits_disc_and_ua_confirms() {
    let mut s = Session::new(SessionConfig::default());
    s.open(1, t0());
    s.on_frame(&Frame::ua(1), t0());
    let acts = s.close(1, t0());
    assert!(
        acts.iter()
            .any(|a| matches!(a, Action::Send(f) if f.ftype == FrameType::Disc))
    );
    assert!(matches!(s.state(1), DlcState::Closing { .. }));

    s.on_frame(&Frame::ua(1), t0());
    assert_eq!(s.state(1), DlcState::Closed);
}

#[test]
fn unknown_dlci_data_is_still_reported() {
    let mut s = Session::new(SessionConfig::default());
    let acts = s.on_frame(&Frame::uih(7, b"x".to_vec()), t0());
    assert!(acts.iter().any(|a| matches!(a, Action::Data(7, _))));
}

#[test]
fn control_frame_on_dlci0_is_surfaced() {
    let mut s = Session::new(SessionConfig::default());
    let msg = ControlMessage::Cld;
    let acts = s.on_frame(&Frame::uih(0, msg.encode_command()), t0());
    assert!(
        acts.iter().any(|a| matches!(a, Action::Control(m, _) if *m == msg)),
        "DLCI 0 上的 UIH 应解析成控制消息"
    );
}

#[test]
fn state_of_untouched_dlci_is_closed() {
    let s = Session::new(SessionConfig::default());
    assert_eq!(s.state(5), DlcState::Closed);
}

#[test]
fn default_session_waits_three_seconds_three_times() {
    let cfg = SessionConfig::default();
    assert_eq!(cfg.open_timeout, 3_000_000_000);
    assert_eq!(cfg.max_attempts, 3);
}

#[test]
fn giving_up_names_the_number_of_attempts() {
    let cfg = SessionConfig { open_timeout: 10, max_attempts: 2 };
    let mut s = Session::new(cfg);
    s.open(9, 0);
    assert!(s.tick(9).is_empty());
    assert_eq!(s.tick(10).len(), 1);
    let acts = s.tick(20);
    assert_eq!(acts.len(), 1);
    match &acts[0] {
        Action::Failed(9, why) => assert_eq!(why, "等待 UA 超时，已重试 2 次"),
        other => panic!("{other:?}"),
    }
    assert!(s.tick(1_000_000).is_empty());
}

#[test]
fn unanswered_close_ends_closed() {
    let cfg = SessionConfig { open_timeout: 10, max_attempts: 2 };
    let mut s = Session::new(cfg);
    s.close(4, 0);
    let acts = s.tick(10);
    assert!(matches!(&acts[0], Action::Send(f) if f.ftype == FrameType::Disc));
    assert_eq!(s.state(4), DlcState::Closing { attempts: 2 });
    let acts = s.tick(20);
    assert!(matches!(acts[0], Action::Closed(4)));
    assert_eq!(s.state(4), DlcState::Closed);
}

#[test]
fn no_attempts_allowed_still_sends_once() {
    let cfg = SessionConfig { open_timeout: 10, max_attempts: 0 };
    let mut s = Session::new(cfg);
    assert_eq!(s.open(1, 0).len(), 1);
    let acts = s.tick(10);
    assert!(matches!(&acts[0], Action::Failed(1, _)));
}

#[test]
fn deadlines_past_the_end_of_the_clock_are_its_end() {
    let mut s = Session::new(SessionConfig::default());
    s.open(1, u64::MAX - 1);
    assert!(s.tick(u64::MAX - 1).is_empty());
    assert_eq!(s.tick(u64::MAX).len(), 1);
}

#[test]
fn ticks_go_through_the_channels_in_order() {
    let mut s = Session::new(SessionConfig { open_timeout: 10, max_attempts: 3 });
    for d in [9u8, 2, 200, 5] {
        s.open(d, 0);
    }
    let order: Vec<u8> = s
        .tick(10)
        .iter()
        .map(|a| match a {
            Action::Send(f) => f.dlci,
            other => panic!("{other:?}"),
        })
        .collect();
    assert_eq!(order, vec![2, 5, 9, 200]);
}

#[test]
fn dm_confirms_a_close_and_refuses_anything_else() {
    let dm = |d| Frame { dlci: d, cr: false, pf: true, ftype: FrameType::Dm, info: vec![] };
    let mut s = Session::new(SessionConfig::default());
    s.close(1, t0());
    assert!(matches!(s.on_frame(&dm(1), t0())[0], Action::Closed(1)));
    assert_eq!(s.state(1), DlcState::Closed);
    match &s.on_frame(&dm(2), t0())[0] {
        Action::Failed(2, why) => assert_eq!(why, "对端返回 DM（拒绝建链）"),
        other => panic!("{other:?}"),
    }
    assert_eq!(s.state(2), DlcState::Failed);
}

#[test]
fn disc_is_answered_and_sabm_too() {
    let mut s = Session::new(SessionConfig::default());
    s.open(1, t0());
    s.on_frame(&Frame::ua(1), t0());
    let acts = s.on_frame(&Frame::disc(1), t0());
    assert!(matches!(&acts[0], Action::Send(f) if *f == Frame::ua(1)));
    assert!(matches!(acts[1], Action::Closed(1)));
    assert_eq!(s.state(1), DlcState::Closed);
    let acts = s.on_frame(&Frame::sabm(3), t0());
    assert_eq!(acts.len(), 1);
    assert!(matches!(&acts[0], Action::Send(f) if *f == Frame::ua(3)));
    assert_eq!(s.state(3), DlcState::Closed);
}

#[test]
fn a_stray_ua_changes_nothing() {
    let mut s = Session::new(SessionConfig::default());
    assert!(s.on_frame(&Frame::ua(6), t0()).is_empty());
    assert_eq!(s.state(6), DlcState::Closed);
}

#[test]
fn data_goes_out_on_open_channels_and_the_control_channel_only() {
    let mut s = Session::new(SessionConfig::default());
    assert!(s.send_data(1, vec![1]).is_empty());
    assert_eq!(s.send_data(0, vec![1]).len(), 1);
    s.open(1, t0());
    assert!(s.send_data(1, vec![1]).is_empty());
    s.on_frame(&Frame::ua(1), t0());
    let acts = s.send_data(1, vec![1, 2]);
    assert!(matches!(&acts[0], Action::Send(f) if *f == Frame::uih(1, vec![1, 2])));
    assert_eq!(s.open_dlcis(), vec![1]);
}

#[test]
fn open_channels_are_listed_in_order() {
    let mut s = Session::new(SessionConfig::default());
    for d in [63u8, 1, 7] {
        s.open(d, t0());
        s.on_frame(&Frame::ua(d), t0());
    }
    s.open(9, t0());
    assert_eq!(s.open_dlcis(), vec![1, 7, 63]);
}

#[test]
fn unreadable_control_messages_are_passed_over() {
    let mut s = Session::new(SessionConfig::default());
    assert!(s.on_frame(&Frame::uih(0, vec![0xE3]), t0()).is_empty());
}

#[test]
fn channels_do_not_disturb_each_other() {
    let mut s = Session::new(SessionConfig::default());
    s.open(1, t0());
    s.on_frame(&Frame::ua(1), t0());
    s.open(2, t0());
    s.close(3, t0());
    let dm = Frame { dlci: 2, cr: false, pf: true, ftype: FrameType::Dm, info: vec![] };
    s.on_frame(&dm, t0());
    s.on_frame(&Frame::disc(4), t0());
    assert_eq!(s.state(1), DlcState::Open);
    assert_eq!(s.state(2), DlcState::Failed);
    assert_eq!(s.state(3), DlcState::Closing { attempts: 1 });
    assert_eq!(s.state(4), DlcState::Closed);
}

#[test]
fn a_refused_channel_rests_until_it_is_asked_again() {
    let mut s = Session::new(SessionConfig { open_timeout: 10, max_attempts: 3 });
    s.open(1, 0);
    let dm = Frame { dlci: 1, cr: false, pf: true, ftype: FrameType::Dm, info: vec![] };
    s.on_frame(&dm, 1);
    s.open(2, 2);
    for now in [11u64, 25, 1_000] {
        for a in s.tick(now) {
            assert!(matches!(&a, Action::Send(f) if f.dlci == 2) || matches!(a, Action::Failed(2, _)));
        }
        s.on_frame(&Frame::ua(1), now);
        s.on_frame(&dm, now);
        assert_eq!(s.state(1), DlcState::Failed);
    }
    s.on_frame(&Frame::disc(1), 2_000);
    assert_eq!(s.state(1), DlcState::Closed);
    assert!(matches!(&s.tick(3_000)[..], [Action::Failed(2, _)]));
    assert!(s.tick(u64::MAX).is_empty());
    s.open(1, 4_000);
    assert_eq!(s.state(1), DlcState::Opening { attempts: 1 });
}
