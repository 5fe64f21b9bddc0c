use cmux_tui::mux::fcs::{check, fcs};
use cmux_tui::mux::frame::{Frame, FrameType};

#[test]
fn sabm_dlci0_fcs_matches_spec() {
    assert_eq!(fcs(&[0x03, 0x3F, 0x01]), 0x1C);
}

#[test]
fn ua_dlci0_fcs_matches_spec() {
    assert_eq!(fcs(&[0x03, 0x73, 0x01]), 0xD7);
}

#[test]
fn check_accepts_correct_fcs() {
    assert!(check(&[0x03, 0x3F, 0x01], 0x1C));
    assert!(check(&[0x03, 0x73, 0x01], 0xD7));
}

#[test]
fn check_rejects_corrupted_fcs() {
    assert!(!check(&[0x03, 0x3F, 0x01], 0x1D));
    assert!(!check(&[0x03, 0x3F, 0x02], 0x1C));
}

#[test]
fn generated_fcs_always_passes_check() {
    for len in 0..16usize {
        let data: Vec<u8> = (0..len).map(|i| (i as u8).wrapping_mul(37)).collect();
        let f = fcs(&data);
        assert!(check(&data, f), "len={len}");
    }
}

#[test]
fn every_single_byte_change_is_noticed() {
    let data = [0x07u8, 0x3F, 0x05, 0xAA];
    for i in 0..data.len() {
        for b in 0..=255u8 {
            let mut changed = data;
            changed[i] = b;
            assert_eq!(check(&changed, fcs(&data)), b == data[i]);
        }
    }
}

#[test]
fn sabm_dlci0_encodes_to_spec_bytes() {
    assert_eq!(Frame::sabm(0).encode(), vec![0xF9, 0x03, 0x3F, 0x01, 0x1C, 0xF9]);
}

#[test]
fn ua_dlci0_encodes_to_spec_bytes() {
    assert_eq!(Frame::ua(0).encode(), vec![0xF9, 0x03, 0x73, 0x01, 0xD7, 0xF9]);
}

#[test]
fn dlci_lands_in_high_six_bits_of_address() {
    let bytes = Frame::sabm(3).encode();
    assert_eq!(bytes[1], 0x0F);
}

#[test]
fn short_uih_uses_single_length_byte() {
    let bytes = Frame::uih(1, b"AT\r".to_vec()).encode();
    assert_eq!(&bytes[..4], &[0xF9, 0x07, 0xEF, 0x07]);
    assert_eq!(&bytes[4..7], b"AT\r");
    assert_eq!(bytes.len(), 9);
    assert_eq!(*bytes.last().unwrap(), 0xF9);
}

#[test]
fn long_uih_uses_two_length_bytes() {
    let info = vec![0xAAu8; 200];
    let bytes = Frame::uih(1, info).encode();
    assert_eq!(bytes[3], 0x90);
    assert_eq!(bytes[4], 0x01);
    assert_eq!(bytes.len(), 207);
}

#[test]
fn uih_fcs_covers_header_only() {
    let f = Frame::uih(1, b"AT\r".to_vec());
    let bytes = f.encode();
    let expected = fcs(&[0x07, 0xEF, 0x07]);
    assert_eq!(bytes[bytes.len() - 2], expected);
}

#[test]
fn non_uih_fcs_covers_info_too() {
    let mut f = Frame::sabm(1);
    f.info = vec![0xAA, 0xBB];
    let bytes = f.encode();
    let header = [0x07u8, 0x3F, (2 << 1) | 1];
    let with_info = fcs(&[0x07, 0x3F, 0x05, 0xAA, 0xBB]);
    let header_only = fcs(&header);
    assert_ne!(with_info, header_only);
    assert_eq!(bytes[bytes.len() - 2], with_info);
}

#[test]
fn control_byte_roundtrip() {
    for ft in [
        FrameType::Sabm,
        FrameType::Ua,
        FrameType::Dm,
        FrameType::Disc,
        FrameType::Uih,
    ] {
        for pf in [true, false] {
            let c = ft.control_byte(pf);
            assert_eq!(FrameType::from_control(c), Some((ft, pf)));
        }
    }
}

#[test]
fn unknown_control_byte_is_rejected() {
    assert_eq!(FrameType::from_control(0x00), None);
}

#[test]
fn address_keeps_only_six_bits_of_the_dlci() {
    let f = Frame { dlci: 65, cr: false, pf: false, ftype: FrameType::Dm, info: Vec::new() };
    assert_eq!(f.address_byte(), 0x05);
    assert_eq!(f.clone(), f);
}

#[test]
fn frame_type_names() {
    assert_eq!(FrameType::Sabm.name(), "SABM");
    assert_eq!(FrameType::Ua.name(), "UA");
    assert_eq!(FrameType::Dm.name(), "DM");
    assert_eq!(FrameType::Disc.name(), "DISC");
    assert_eq!(FrameType::Uih.name(), "UIH");
}
