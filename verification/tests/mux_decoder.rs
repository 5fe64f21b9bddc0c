use cmux_tui::mux::decoder::{DecodeEvent, FrameDecoder};
use cmux_tui::mux::frame::{Frame, FrameType};

fn frames(events: Vec<DecodeEvent>) -> Vec<Frame> {
    events
        .into_iter()
        .filter_map(|e| match e {
            DecodeEvent::Frame(f) => Some(f),
            _ => None,
        })
        .collect()
}

#[test]
fn decodes_a_whole_frame() {
    let mut d = FrameDecoder::new(1024);
    let wire = Frame::sabm(0).encode();
    let got = frames(d.push(&wire));
    assert_eq!(got.len(), 1);
    assert_eq!(got[0].ftype, FrameType::Sabm);
    assert_eq!(got[0].dlci, 0);
}

#[test]
fn decodes_frame_split_across_pushes() {
    let mut d = FrameDecoder::new(1024);
    let wire = Frame::uih(1, b"hello".to_vec()).encode();
    let mut got = Vec::new();
    for chunk in wire.chunks(2) {
        got.extend(frames(d.push(chunk)));
    }
    assert_eq!(got.len(), 1);
    assert_eq!(got[0].info, b"hello");
}

#[test]
fn decodes_back_to_back_frames_in_one_push() {
    let mut d = FrameDecoder::new(1024);
    let mut wire = Frame::sabm(1).encode();
    wire.extend(Frame::uih(1, b"ok".to_vec()).encode());
    let got = frames(d.push(&wire));
    assert_eq!(got.len(), 2);
    assert_eq!(got[1].info, b"ok");
}

#[test]
fn tolerates_shared_flag_between_frames() {
    let mut d = FrameDecoder::new(1024);
    let a = Frame::sabm(1).encode();
    let b = Frame::sabm(2).encode();
    let mut wire = a.clone();
    wire.extend_from_slice(&b[1..]);
    let got = frames(d.push(&wire));
    assert_eq!(got.len(), 2);
    assert_eq!(got[1].dlci, 2);
}

#[test]
fn tolerates_runs_of_flags() {
    let mut d = FrameDecoder::new(1024);
    let mut wire = vec![0xF9, 0xF9, 0xF9];
    wire.extend(Frame::sabm(1).encode());
    wire.extend_from_slice(&[0xF9, 0xF9]);
    let got = frames(d.push(&wire));
    assert_eq!(got.len(), 1);
}

#[test]
fn reports_fcs_error_without_losing_sync() {
    let mut d = FrameDecoder::new(1024);
    let mut bad = Frame::sabm(1).encode();
    let n = bad.len();
    bad[n - 2] ^= 0xFF;
    bad.extend(Frame::sabm(2).encode());

    let events = d.push(&bad);
    assert!(events.iter().any(|e| matches!(e, DecodeEvent::FcsError { .. })));
    let good = frames(events);
    assert_eq!(good.len(), 1);
    assert_eq!(good[0].dlci, 2);
}

#[test]
fn decodes_two_byte_length_frame() {
    let mut d = FrameDecoder::new(4096);
    let info = vec![0x5Au8; 300];
    let wire = Frame::uih(1, info.clone()).encode();
    let got = frames(d.push(&wire));
    assert_eq!(got.len(), 1);
    assert_eq!(got[0].info, info);
}

#[test]
fn oversized_length_is_rejected_and_resyncs() {
    let mut d = FrameDecoder::new(16);
    let mut wire = Frame::uih(1, vec![0u8; 100]).encode();
    wire.extend(Frame::sabm(2).encode());
    let events = d.push(&wire);
    let good = frames(events);
    assert_eq!(good.len(), 1);
    assert_eq!(good[0].dlci, 2);
}

#[test]
fn never_panics_on_arbitrary_bytes() {
    let mut d = FrameDecoder::new(256);
    let mut x: u32 = 0x12345678;
    let data: Vec<u8> = (0..20000)
        .map(|_| {
            x = x.wrapping_mul(1103515245).wrapping_add(12345);
            let b = (x >> 16) as u8;
            if b % 7 == 0 {
                0xF9
            } else {
                b
            }
        })
        .collect();
    for chunk in data.chunks(13) {
        let _ = d.push(chunk);
    }
}

#[test]
fn unknown_control_byte_does_not_yield_frame() {
    let mut d = FrameDecoder::new(1024);
    let wire = [0xF9, 0x03, 0x00, 0x01, 0x00, 0xF9];
    let got = frames(d.push(&wire));
    assert!(got.is_empty());
}

#[test]
fn unreadable_bytes_are_reported_as_they_came() {
    let mut d = FrameDecoder::new(1024);
    assert_eq!(d.push(b"noise"), Vec::new());
    assert_eq!(d.push(&[0xF9]), vec![DecodeEvent::Garbage(b"noise".to_vec())]);
    assert_eq!(d.push(&[0x01, 0x02, 0xF9]), vec![DecodeEvent::Garbage(vec![0x01, 0x02])]);
    assert_eq!(
        d.push(&[0x03, 0x3F, 0x01, 0x1D, 0xF9]),
        vec![DecodeEvent::FcsError { raw: vec![0x03, 0x3F, 0x01, 0x1D] }]
    );
    assert_eq!(
        d.push(&[0x03, 0x3F, 0x01, 0x1C, 0xF9]),
        vec![DecodeEvent::Frame(Frame::sabm(0))]
    );
}

#[test]
fn long_noise_is_reported_in_blocks() {
    let mut d = FrameDecoder::new(1024);
    assert_eq!(d.push(&[0x55; 255]), Vec::new());
    assert_eq!(d.push(&[0x55; 2]), vec![DecodeEvent::Garbage(vec![0x55; 256])]);
    assert_eq!(d.push(&[0xF9]), vec![DecodeEvent::Garbage(vec![0x55])]);
}

#[test]
fn information_byte_equal_to_the_flag_breaks_the_frame() {
    let mut d = FrameDecoder::new(1024);
    let got = frames(d.push(&Frame::uih(1, vec![0x41, 0xF9, 0x42]).encode()));
    assert!(got.is_empty());
}

#[test]
fn events_account_for_every_byte_and_stay_bounded() {
    let max_info = 20;
    let mut d = FrameDecoder::new(max_info);
    let mut wire = vec![0x11u8; 300];
    let good = Frame::uih(3, b"hello".to_vec());
    wire.extend(good.encode());
    let mut bad = Frame::sabm(4).encode();
    bad[4] ^= 0x01;
    wire.extend(bad);
    wire.extend(vec![0x22u8; 40]);
    wire.push(0xF9);
    let mut accounted = 0;
    for e in d.push(&wire) {
        accounted += match e {
            DecodeEvent::Frame(f) => {
                assert_eq!(f, good);
                f.encode().len() - 2
            }
            DecodeEvent::FcsError { raw } => {
                assert!((4..=max_info + 5).contains(&raw.len()));
                assert!(!raw.contains(&0xF9));
                raw.len()
            }
            DecodeEvent::Garbage(bytes) => {
                assert!((1..=256).contains(&bytes.len()));
                assert!(!bytes.contains(&0xF9));
                bytes.len()
            }
        };
    }
    assert_eq!(accounted, wire.iter().filter(|b| **b != 0xF9).count());
}
