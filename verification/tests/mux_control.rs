use cmux_tui::mux::control::ControlMessage;

#[test]
fn cld_command_encodes_to_two_bytes() {
    assert_eq!(ControlMessage::Cld.encode_command(), vec![0xC3, 0x01]);
}

#[test]
fn msc_command_encodes_dlci_and_signals() {
    let m = ControlMessage::Msc { dlci: 1, signals: 0x8D };
    assert_eq!(m.encode_command(), vec![0xE3, 0x05, 0x07, 0x8D]);
}

#[test]
fn parses_cld_response() {
    let (msg, is_command) = ControlMessage::parse(&[0xC1, 0x01]).unwrap();
    assert_eq!(msg, ControlMessage::Cld);
    assert!(!is_command);
}

#[test]
fn parses_msc_command() {
    let (msg, is_command) = ControlMessage::parse(&[0xE3, 0x05, 0x07, 0x8D]).unwrap();
    assert_eq!(msg, ControlMessage::Msc { dlci: 1, signals: 0x8D });
    assert!(is_command);
}

#[test]
fn parses_nsc_rejection_captured_from_real_hardware() {
    let (msg, is_command) = ControlMessage::parse(&[0x09, 0x03, 0xE3]).unwrap();
    assert_eq!(msg, ControlMessage::Nsc { rejected: 0xE3 });
    assert!(!is_command, "NSC 是响应而非命令");

    let d = msg.describe();
    assert!(d.contains("不支持"), "实际: {d}");
    assert!(d.contains("MSC"), "应指明被拒绝的是哪条命令，实际: {d}");
}

#[test]
fn known_but_unimplemented_types_show_their_name() {
    let (msg, _) = ControlMessage::parse(&[0x41, 0x03, 0x07]).unwrap();
    assert!(msg.describe().contains("PN"), "实际: {}", msg.describe());

    let (msg, _) = ControlMessage::parse(&[0x31, 0x01]).unwrap();
    assert!(msg.describe().contains("FCoff"), "实际: {}", msg.describe());
}

#[test]
fn unknown_type_is_preserved_for_display() {
    let (msg, _) = ControlMessage::parse(&[0x83, 0x03, 0xAA]).unwrap();
    match msg {
        ControlMessage::Unknown { ctype, data } => {
            assert_eq!(ctype, 0x80);
            assert_eq!(data, vec![0xAA]);
        }
        other => panic!("期望 Unknown，得到 {other:?}"),
    }
}

#[test]
fn truncated_message_returns_none() {
    assert!(ControlMessage::parse(&[]).is_none());
    assert!(ControlMessage::parse(&[0xE3]).is_none());
    assert!(ControlMessage::parse(&[0xE3, 0x05, 0x07]).is_none());
}

#[test]
fn command_roundtrips_through_parse() {
    let m = ControlMessage::Msc { dlci: 5, signals: 0x8D };
    let (back, is_command) = ControlMessage::parse(&m.encode_command()).unwrap();
    assert_eq!(back, m);
    assert!(is_command);
}

#[test]
fn describe_is_human_readable() {
    assert_eq!(ControlMessage::Cld.describe(), "CLD 关闭复用");
    assert!(
        ControlMessage::Msc { dlci: 1, signals: 0x8D }
            .describe()
            .contains("MSC")
    );
}

#[test]
fn descriptions_are_exact() {
    let d = |m: ControlMessage| m.describe();
    assert_eq!(d(ControlMessage::Msc { dlci: 13, signals: 0x0D }), "MSC DLCI 13 信号 0x0D");
    assert_eq!(d(ControlMessage::Nsc { rejected: 0xE3 }), "NSC 对端不支持 MSC");
    assert_eq!(d(ControlMessage::Nsc { rejected: 0x83 }), "NSC 对端不支持 type=0x83");
    assert_eq!(
        d(ControlMessage::Unknown { ctype: 0x40, data: vec![7] }),
        "PN（本工具未解析）1 字节"
    );
    assert_eq!(
        d(ControlMessage::Unknown { ctype: 0x80, data: vec![0; 12] }),
        "未知控制消息 type=0x80 12 字节"
    );
}

#[test]
fn every_type_has_its_name() {
    let names = [
        (0x08u8, "NSC"),
        (0x10, "Test"),
        (0x20, "PSC"),
        (0x28, "RLS"),
        (0x30, "FCoff"),
        (0x40, "PN"),
        (0x48, "RPN"),
        (0x50, "FCon"),
        (0x68, "SNC"),
        (0xC0, "CLD"),
        (0xE0, "MSC"),
    ];
    for (ctype, name) in names {
        let said = ControlMessage::Nsc { rejected: ctype | 0x03 }.describe();
        assert_eq!(said, format!("NSC 对端不支持 {name}"));
    }
}

#[test]
fn commands_cut_short_are_refused_and_trailing_bytes_ignored() {
    let messages = [
        ControlMessage::Cld,
        ControlMessage::Nsc { rejected: 0x41 },
        ControlMessage::Msc { dlci: 63, signals: 0 },
        ControlMessage::Unknown { ctype: 0x40, data: vec![1, 2, 3] },
    ];
    for m in messages {
        let bytes = m.encode_command();
        for cut in 0..bytes.len() {
            assert!(ControlMessage::parse(&bytes[..cut]).is_none());
        }
        let mut longer = bytes.clone();
        longer.extend_from_slice(&[0xAA, 0xBB]);
        assert_eq!(ControlMessage::parse(&longer), Some((m, true)));
    }
}

#[test]
fn short_msc_and_nsc_are_kept_as_they_came() {
    assert_eq!(
        ControlMessage::parse(&[0xE3, 0x03, 0x07]),
        Some((ControlMessage::Unknown { ctype: 0xE0, data: vec![0x07] }, true))
    );
    assert_eq!(
        ControlMessage::parse(&[0x09, 0x01]),
        Some((ControlMessage::Unknown { ctype: 0x08, data: vec![] }, false))
    );
}
