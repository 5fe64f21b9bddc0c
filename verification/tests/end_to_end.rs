use cmux_tui::app::event::{Event, TxRequest};
use cmux_tui::app::keymap::Command;
use cmux_tui::app::record::Direction;
use cmux_tui::app::runtime::{Effect, Runtime};
use cmux_tui::app::state::AppConfig;
use cmux_tui::mux::decoder::FrameDecoder;
use cmux_tui::mux::frame::{Frame, FrameType};
use cmux_tui::mux::session::{DlcState, SessionConfig, MILLISECOND, SECOND};
use cmux_tui::serial::at::{enter_mux, AtConfig};
use cmux_tui::serial::stream::MockStream;

const NOW: u64 = 9 * SECOND;

/// What the peer would receive.
fn sent(rt: &mut Runtime) -> Vec<Frame> {
    rt.take_effects()
        .into_iter()
        .filter_map(|e| match e {
            Effect::Transmit(TxRequest::Frame(f)) => Some(f),
            _ => None,
        })
        .collect()
}

/// The peer sends bytes: they go through the decoder to the runtime.
fn peer_sends(rt: &mut Runtime, dec: &mut FrameDecoder, bytes: &[u8], now: u64) {
    for ev in dec.push(bytes) {
        rt.on_event(Event::decoded(ev), now);
    }
}

fn new_runtime() -> (Runtime, FrameDecoder) {
    let rt = Runtime::new(AppConfig::default(), SessionConfig::default());
    (rt, FrameDecoder::new(127))
}

#[test]
fn at_handshake_puts_the_module_into_mux_mode() {
    let mut port = MockStream::new();
    port.feed(b"\r\nOK\r\n");
    port.feed(b"\r\nOK\r\n");

    enter_mux(&mut port, &AtConfig::default()).expect("握手应成功");

    let written = String::from_utf8_lossy(&port.written()).to_string();
    assert!(written.starts_with("AT\r"), "实际: {written:?}");
    assert!(written.contains("AT+CMUX=0,0,5,127,"), "实际: {written:?}");
}

#[test]
fn two_channels_open_and_exchange_data_independently() {
    let (mut rt, mut dec) = new_runtime();

    rt.exec(Command::OpenDlc { dlci: 1, slot: 0 }, NOW);
    rt.exec(Command::OpenDlc { dlci: 3, slot: 1 }, NOW);
    let frames = sent(&mut rt);
    assert_eq!(frames.len(), 2);
    assert!(frames.iter().all(|f| f.ftype == FrameType::Sabm));
    assert_eq!(frames[0].dlci, 1);
    assert_eq!(frames[1].dlci, 3);

    peer_sends(&mut rt, &mut dec, &Frame::ua(1).encode(), NOW);
    peer_sends(&mut rt, &mut dec, &Frame::ua(3).encode(), NOW);
    assert_eq!(rt.state.slots[0].state, DlcState::Open);
    assert_eq!(rt.state.slots[1].state, DlcState::Open);

    rt.exec(Command::Send { dlci: 1, bytes: b"AT+CGSN\r".to_vec() }, NOW);
    let frames = sent(&mut rt);
    assert_eq!(frames.len(), 1);
    assert_eq!(frames[0].dlci, 1);
    assert_eq!(frames[0].info, b"AT+CGSN\r");

    peer_sends(
        &mut rt,
        &mut dec,
        &Frame::uih(1, b"861234567890\r\n".to_vec()).encode(),
        NOW,
    );
    peer_sends(
        &mut rt,
        &mut dec,
        &Frame::uih(3, b"+CSQ: 20,99\r\n".to_vec()).encode(),
        NOW,
    );

    rt.on_event(Event::Tick, NOW + 50 * MILLISECOND);

    let slot0 = rt.state.slots[0].records.back().unwrap();
    assert_eq!(slot0.dir, Direction::Rx);
    assert_eq!(slot0.bytes, b"861234567890\r\n");

    let slot1 = rt.state.slots[1].records.back().unwrap();
    assert_eq!(slot1.dir, Direction::Rx);
    assert_eq!(slot1.bytes, b"+CSQ: 20,99\r\n");

    assert_eq!(rt.state.unrouted, 0, "不应有记录落到未绑定的通道");
}

#[test]
fn peer_data_on_an_unbound_channel_is_counted_not_lost_silently() {
    let (mut rt, mut dec) = new_runtime();
    rt.exec(Command::OpenDlc { dlci: 1, slot: 0 }, NOW);
    peer_sends(&mut rt, &mut dec, &Frame::ua(1).encode(), NOW);

    peer_sends(&mut rt, &mut dec, &Frame::uih(5, b"x".to_vec()).encode(), NOW);
    rt.on_event(Event::Tick, NOW + 50 * MILLISECOND);

    assert_eq!(rt.state.unrouted, 1);
    assert_eq!(rt.state.stats.rx_frames, 2);
}

#[test]
fn corrupted_frames_are_counted_and_the_stream_resyncs() {
    let (mut rt, mut dec) = new_runtime();
    rt.exec(Command::OpenDlc { dlci: 1, slot: 0 }, NOW);

    let mut bad = Frame::ua(1).encode();
    let n = bad.len();
    bad[n - 2] ^= 0xFF;
    peer_sends(&mut rt, &mut dec, &bad, NOW);
    assert_eq!(rt.state.stats.fcs_errors, 1);
    assert_ne!(rt.state.slots[0].state, DlcState::Open, "坏帧不应建链");

    peer_sends(&mut rt, &mut dec, &Frame::ua(1).encode(), NOW);
    assert_eq!(rt.state.slots[0].state, DlcState::Open, "坏帧后应能重新同步");
}

#[test]
fn closing_a_channel_completes_the_disc_ua_exchange() {
    let (mut rt, mut dec) = new_runtime();
    rt.exec(Command::OpenDlc { dlci: 1, slot: 0 }, NOW);
    peer_sends(&mut rt, &mut dec, &Frame::ua(1).encode(), NOW);
    let _ = sent(&mut rt);

    rt.exec(Command::CloseDlc { dlci: 1 }, NOW);
    let frames = sent(&mut rt);
    assert_eq!(frames[0].ftype, FrameType::Disc);

    peer_sends(&mut rt, &mut dec, &Frame::ua(1).encode(), NOW);
    assert_eq!(rt.state.slots[0].state, DlcState::Closed);
}

#[test]
fn every_exchanged_frame_shows_up_in_the_raw_log() {
    let (mut rt, mut dec) = new_runtime();
    rt.exec(Command::OpenDlc { dlci: 1, slot: 0 }, NOW);
    peer_sends(&mut rt, &mut dec, &Frame::ua(1).encode(), NOW);
    rt.exec(Command::Send { dlci: 1, bytes: b"AT\r".to_vec() }, NOW);

    assert_eq!(rt.state.raw_log.len(), 3);
    let summaries: Vec<String> = rt.state.raw_log.iter().map(|e| e.line()).collect();
    assert!(summaries[0].contains("SABM"), "实际: {:?}", summaries);
    assert!(summaries[1].contains("UA"), "实际: {:?}", summaries);
    assert!(summaries[2].contains("UIH"), "实际: {:?}", summaries);
}

#[test]
fn what_one_side_sends_the_other_side_hears() {
    let (mut here, mut dec_here) = new_runtime();
    let (mut there, mut dec_there) = new_runtime();
    here.exec(Command::OpenDlc { dlci: 2, slot: 0 }, NOW);
    there.state.bind(2);
    for _ in 0..2 {
        for f in sent(&mut here) {
            peer_sends(&mut there, &mut dec_there, &f.encode(), NOW);
        }
        for f in sent(&mut there) {
            peer_sends(&mut here, &mut dec_here, &f.encode(), NOW);
        }
    }
    assert_eq!(here.state.slots[0].state, DlcState::Open);
    here.exec(Command::Send { dlci: 2, bytes: b"hello".to_vec() }, NOW);
    for f in sent(&mut here) {
        peer_sends(&mut there, &mut dec_there, &f.encode(), NOW);
    }
    there.on_event(Event::Tick, NOW + SECOND);
    assert_eq!(there.state.slots[0].records.back().unwrap().bytes, b"hello");
}
