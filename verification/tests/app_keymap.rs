use cmux_tui::app::input::{InputMode, LineEnding};
use cmux_tui::app::keymap::{map_key, Command, KeyCode, KeyEvent};
use cmux_tui::app::record::{Direction, Record};
use cmux_tui::app::state::{AppConfig, AppState, Dialog};

fn key(c: char) -> KeyEvent {
    KeyEvent { code: KeyCode::Char(c), ctrl: false }
}

fn ctrl(c: char) -> KeyEvent {
    KeyEvent { code: KeyCode::Char(c), ctrl: true }
}

fn code(k: KeyCode) -> KeyEvent {
    KeyEvent { code: k, ctrl: false }
}

fn ready() -> AppState {
    let mut s = AppState::new(AppConfig::default());
    s.bind(1);
    s.bind(3);
    s
}

#[test]
fn ctrl_q_quits() {
    let mut s = ready();
    assert!(matches!(map_key(&mut s, ctrl('q')), Command::Quit));
}

#[test]
fn typing_appends_to_input_buffer() {
    let mut s = ready();
    map_key(&mut s, key('A'));
    map_key(&mut s, key('T'));
    assert_eq!(s.input.buffer, "AT");
}

#[test]
fn enter_emits_send_with_parsed_bytes() {
    let mut s = ready();
    for c in "AT".chars() {
        map_key(&mut s, key(c));
    }
    match map_key(&mut s, code(KeyCode::Enter)) {
        Command::Send { dlci, bytes } => {
            assert_eq!(dlci, 1);
            assert_eq!(bytes, b"AT\r", "ASCII 模式默认追加 \\r");
        }
        other => panic!("期望 Send，得到 {other:?}"),
    }
    assert_eq!(s.input.buffer, "", "发送后应清空输入");
}

#[test]
fn enter_with_bad_hex_sets_notice_and_sends_nothing() {
    let mut s = ready();
    map_key(&mut s, ctrl('t'));
    for c in "4G".chars() {
        map_key(&mut s, key(c));
    }
    assert!(matches!(map_key(&mut s, code(KeyCode::Enter)), Command::Nothing));
    assert!(
        s.notice.as_ref().unwrap().contains("非法"),
        "实际: {:?}",
        s.notice
    );
    assert_eq!(s.input.buffer, "4G", "解析失败不应清空输入");
}

#[test]
fn enter_without_bound_channel_warns() {
    let mut s = AppState::new(AppConfig::default());
    map_key(&mut s, key('A'));
    assert!(matches!(map_key(&mut s, code(KeyCode::Enter)), Command::Nothing));
    assert!(s.notice.is_some());
}

#[test]
fn function_keys_switch_focus() {
    let mut s = ready();
    map_key(&mut s, code(KeyCode::F(2)));
    assert_eq!(s.focus, 1);
    map_key(&mut s, code(KeyCode::F(1)));
    assert_eq!(s.focus, 0);
    map_key(&mut s, code(KeyCode::Tab));
    assert_eq!(s.focus, 1);
}

#[test]
fn ctrl_t_toggles_input_mode() {
    let mut s = ready();
    map_key(&mut s, ctrl('t'));
    assert_eq!(s.input.mode, InputMode::Hex);
}

#[test]
fn ctrl_r_toggles_raw_view() {
    let mut s = ready();
    map_key(&mut s, ctrl('r'));
    assert!(s.show_raw);
    map_key(&mut s, ctrl('r'));
    assert!(!s.show_raw);
}

#[test]
fn ctrl_l_clears_focused_channel() {
    let mut s = ready();
    s.push_record(Record::new(Direction::Rx, 1, vec![1]));
    map_key(&mut s, ctrl('l'));
    assert!(s.slots[0].records.is_empty());
}

#[test]
fn page_keys_scroll_and_end_follows() {
    let mut s = ready();
    for i in 0..30 {
        s.push_record(Record::info(1, &format!("行{i}")));
    }
    map_key(&mut s, code(KeyCode::PageUp));
    assert!(!s.slots[0].follow);
    map_key(&mut s, code(KeyCode::End));
    assert!(s.slots[0].follow);
}

#[test]
fn ctrl_o_opens_bind_dialog_for_focused_slot() {
    let mut s = ready();
    s.focus = 1;
    map_key(&mut s, ctrl('o'));
    assert_eq!(s.dialog, Some(Dialog::Bind { slot: 1, input: String::new() }));
}

#[test]
fn bind_dialog_accepts_digits_and_emits_open() {
    let mut s = ready();
    s.unbind(1);
    s.focus = 0;
    map_key(&mut s, ctrl('o'));
    map_key(&mut s, key('7'));
    assert_eq!(s.dialog, Some(Dialog::Bind { slot: 0, input: "7".into() }));

    match map_key(&mut s, code(KeyCode::Enter)) {
        Command::OpenDlc { dlci, slot } => {
            assert_eq!(dlci, 7);
            assert_eq!(slot, 0);
        }
        other => panic!("期望 OpenDlc，得到 {other:?}"),
    }
    assert!(s.dialog.is_none(), "确认后应关闭弹窗");
}

#[test]
fn bind_dialog_rejects_out_of_range_dlci() {
    let mut s = ready();
    s.unbind(1);
    map_key(&mut s, ctrl('o'));
    for c in "64".chars() {
        map_key(&mut s, key(c));
    }
    assert!(matches!(map_key(&mut s, code(KeyCode::Enter)), Command::Nothing));
    assert!(
        s.notice.as_ref().unwrap().contains("1-63"),
        "实际: {:?}",
        s.notice
    );
}

#[test]
fn esc_closes_any_dialog() {
    let mut s = ready();
    map_key(&mut s, ctrl('o'));
    map_key(&mut s, code(KeyCode::Esc));
    assert!(s.dialog.is_none());
}

#[test]
fn ctrl_k_opens_control_menu_and_arrows_move_selection() {
    let mut s = ready();
    map_key(&mut s, ctrl('k'));
    assert_eq!(s.dialog, Some(Dialog::Control { selected: 0 }));
    map_key(&mut s, code(KeyCode::Down));
    assert_eq!(s.dialog, Some(Dialog::Control { selected: 1 }));
    map_key(&mut s, code(KeyCode::Up));
    assert_eq!(s.dialog, Some(Dialog::Control { selected: 0 }));
}

#[test]
fn control_menu_enter_emits_the_selected_command() {
    let mut s = ready();
    map_key(&mut s, ctrl('k'));
    map_key(&mut s, code(KeyCode::Down));
    match map_key(&mut s, code(KeyCode::Enter)) {
        Command::CloseDlc { dlci } => assert_eq!(dlci, 1),
        other => panic!("期望 CloseDlc，得到 {other:?}"),
    }

    map_key(&mut s, ctrl('k'));
    map_key(&mut s, code(KeyCode::Down));
    map_key(&mut s, code(KeyCode::Down));
    assert!(matches!(
        map_key(&mut s, code(KeyCode::Enter)),
        Command::CloseMux
    ));
}

#[test]
fn typing_while_dialog_open_does_not_touch_input_box() {
    let mut s = ready();
    map_key(&mut s, ctrl('o'));
    map_key(&mut s, key('5'));
    assert_eq!(s.input.buffer, "", "弹窗打开时不应写入输入框");
}

#[test]
fn ctrl_g_opens_help_and_any_key_closes_it() {
    let mut s = ready();
    map_key(&mut s, ctrl('g'));
    assert_eq!(s.dialog, Some(Dialog::Help));
    map_key(&mut s, key('x'));
    assert!(s.dialog.is_none(), "任意键应关闭帮助");
    assert_eq!(s.input.buffer, "", "关闭帮助的按键不该落进输入框");
}

#[test]
fn ctrl_s_toggles_logging() {
    let mut s = ready();
    assert!(matches!(map_key(&mut s, ctrl('s')), Command::ToggleLog));
}

#[test]
fn history_keys_recall_previous_input() {
    let mut s = ready();
    for c in "AT".chars() {
        map_key(&mut s, key(c));
    }
    map_key(&mut s, code(KeyCode::Enter));
    map_key(&mut s, code(KeyCode::Up));
    assert_eq!(s.input.buffer, "AT");
}

#[test]
fn the_line_ending_of_the_settings_is_sent() {
    let cfg = AppConfig { line_ending: LineEnding::CrLf, ..AppConfig::default() };
    let mut s = AppState::new(cfg);
    s.bind(2);
    map_key(&mut s, key('A'));
    assert_eq!(
        map_key(&mut s, code(KeyCode::Enter)),
        Command::Send { dlci: 2, bytes: b"A\r\n".to_vec() }
    );
}

#[test]
fn every_key_takes_the_notice_away() {
    let mut s = ready();
    s.notice = Some("旧".into());
    map_key(&mut s, code(KeyCode::Other));
    assert!(s.notice.is_none());
}

#[test]
fn the_bind_dialog_takes_two_digits_and_no_more() {
    let mut s = ready();
    map_key(&mut s, ctrl('o'));
    for c in "1x23".chars() {
        map_key(&mut s, key(c));
    }
    assert_eq!(s.dialog, Some(Dialog::Bind { slot: 0, input: "12".into() }));
    map_key(&mut s, code(KeyCode::Backspace));
    assert_eq!(s.dialog, Some(Dialog::Bind { slot: 0, input: "1".into() }));
    map_key(&mut s, code(KeyCode::Backspace));
    map_key(&mut s, code(KeyCode::Backspace));
    assert_eq!(map_key(&mut s, code(KeyCode::Enter)), Command::Nothing);
    assert_eq!(s.notice.as_deref(), Some("DLCI 必须在 1-63 之间"));
    assert!(s.dialog.is_some(), "拒绝后弹窗应保留");
}

#[test]
fn bound_numbers_are_read_as_numbers() {
    let try_number = |input: &str| {
        let mut s = ready();
        s.dialog = Some(Dialog::Bind { slot: 1, input: input.to_string() });
        map_key(&mut s, code(KeyCode::Enter))
    };
    assert_eq!(try_number("63"), Command::OpenDlc { dlci: 63, slot: 1 });
    assert_eq!(try_number("01"), Command::OpenDlc { dlci: 1, slot: 1 });
    assert_eq!(try_number("+5"), Command::OpenDlc { dlci: 5, slot: 1 });
    for bad in ["0", "00", "+", "-1", "", "256", "999999999999", "1a"] {
        assert_eq!(try_number(bad), Command::Nothing, "{bad}");
    }
}

#[test]
fn control_commands_need_a_channel() {
    let mut s = AppState::new(AppConfig::default());
    for down in 0..2 {
        map_key(&mut s, ctrl('k'));
        for _ in 0..down {
            map_key(&mut s, code(KeyCode::Down));
        }
        assert_eq!(map_key(&mut s, code(KeyCode::Enter)), Command::Nothing);
        assert_eq!(s.notice.as_deref(), Some("当前槽位未绑定通道"));
        assert!(s.dialog.is_none());
    }
    let mut s = ready();
    map_key(&mut s, ctrl('k'));
    assert_eq!(map_key(&mut s, code(KeyCode::Enter)), Command::SendMsc { dlci: 1 });
}

#[test]
fn the_marked_command_stays_in_the_list() {
    let mut s = ready();
    map_key(&mut s, ctrl('k'));
    map_key(&mut s, code(KeyCode::Up));
    assert_eq!(s.dialog, Some(Dialog::Control { selected: 0 }));
    for _ in 0..9 {
        map_key(&mut s, code(KeyCode::Down));
    }
    assert_eq!(s.dialog, Some(Dialog::Control { selected: 2 }));
}

#[test]
fn other_keys_do_nothing() {
    let mut s = ready();
    for k in [ctrl('z'), code(KeyCode::F(3)), code(KeyCode::F(0)), code(KeyCode::Esc)] {
        assert_eq!(map_key(&mut s, k), Command::Nothing);
    }
    assert_eq!(s.focus, 0);
    assert_eq!(s.input.buffer, "");
}
