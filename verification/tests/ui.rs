use cmux_tui::app::input::InputMode;
use cmux_tui::app::record::{Direction, Record};
use cmux_tui::app::state::{
    AppConfig, AppState, ChannelSlot, Dialog, LinkState, RawEntry, CONTROL_ITEMS, HELP_KEYS,
};
use cmux_tui::mux::frame::Frame as MuxFrame;
use cmux_tui::mux::session::DlcState;
use cmux_tui::ui::dialog::render_dialog;
use cmux_tui::ui::hexview::render_channel;
use cmux_tui::ui::layout::{draw, draw_in};
use cmux_tui::ui::raw::render_raw;
use cmux_tui::ui::testutil::{is_wide, row_text};
use cmux_tui::ui::widget::{Color, Draw, Line, Rect, Style};
use ratatui::backend::TestBackend;
use ratatui::widgets::{Block, Clear, Paragraph};
use ratatui::Terminal;

fn color(c: Color) -> ratatui::style::Color {
    match c {
        Color::Black => ratatui::style::Color::Black,
        Color::Red => ratatui::style::Color::Red,
        Color::Green => ratatui::style::Color::Green,
        Color::Yellow => ratatui::style::Color::Yellow,
        Color::Magenta => ratatui::style::Color::Magenta,
        Color::Cyan => ratatui::style::Color::Cyan,
        Color::Gray => ratatui::style::Color::Gray,
        Color::DarkGray => ratatui::style::Color::DarkGray,
        Color::White => ratatui::style::Color::White,
        Color::Rgb(r, g, b) => ratatui::style::Color::Rgb(r, g, b),
    }
}

fn style(s: Style) -> ratatui::style::Style {
    let mut out = ratatui::style::Style::default();
    if let Some(c) = s.fg {
        out = out.fg(color(c));
    }
    if let Some(c) = s.bg {
        out = out.bg(color(c));
    }
    if s.bold {
        out = out.add_modifier(ratatui::style::Modifier::BOLD);
    }
    out
}

fn line(l: &Line) -> ratatui::text::Line<'static> {
    let spans: Vec<ratatui::text::Span<'static>> = l
        .spans
        .iter()
        .map(|s| ratatui::text::Span::styled(s.text.clone(), style(s.style)))
        .collect();
    ratatui::text::Line::from(spans)
}

fn rect(r: Rect) -> ratatui::layout::Rect {
    ratatui::layout::Rect { x: r.x, y: r.y, width: r.width, height: r.height }
}

fn render_lines(w: u16, h: u16, drawing: &[Draw]) -> Vec<String> {
    let mut term = Terminal::new(TestBackend::new(w, h)).unwrap();
    term.draw(|f| {
        for d in drawing {
            match d {
                Draw::Clear(area) => f.render_widget(Clear, rect(*area)),
                Draw::Paragraph { area, lines, block, style: s } => {
                    let lines: Vec<_> = lines.iter().map(line).collect();
                    let mut p = Paragraph::new(lines).style(style(*s));
                    if let Some(b) = block {
                        let mut outer = Block::bordered().border_style(style(b.border));
                        if !b.title.spans.is_empty() {
                            outer = outer.title(line(&b.title));
                        }
                        p = p.block(outer);
                    }
                    f.render_widget(p, rect(*area));
                }
            }
        }
    })
    .unwrap();
    let buf = term.backend().buffer().clone();
    (0..h)
        .map(|y| row_text(&(0..w).map(|x| buf[(x, y)].symbol().to_string()).collect()))
        .collect()
}

fn area(w: u16, h: u16) -> Rect {
    Rect { x: 0, y: 0, width: w, height: h }
}

fn panel(slot: &ChannelSlot, focused: bool, w: u16, h: u16) -> Vec<String> {
    render_lines(w, h, &[render_channel(area(w, h), slot, 0, focused)])
}

fn slot_with(records: Vec<Record>) -> ChannelSlot {
    ChannelSlot {
        dlci: Some(1),
        state: DlcState::Open,
        records: records.into(),
        ..Default::default()
    }
}

#[test]
fn empty_slot_prompts_the_user_to_bind_one() {
    let slot = ChannelSlot::default();
    let joined = panel(&slot, false, 40, 6).join("\n");
    assert!(
        joined.contains("Ctrl+O"),
        "空槽位应提示如何绑定，实际:\n{joined}"
    );
}

#[test]
fn title_shows_dlci_and_state() {
    let slot = slot_with(vec![]);
    let lines = panel(&slot, false, 40, 6);
    assert!(lines[0].contains("DLCI 1"), "实际: {}", lines[0]);
    assert!(lines[0].contains("UP"), "实际: {}", lines[0]);
}

#[test]
fn focused_panel_is_marked() {
    let slot = slot_with(vec![]);
    let focused = panel(&slot, true, 40, 6);
    let unfocused = panel(&slot, false, 40, 6);
    assert!(
        focused[0].contains('◀'),
        "焦点面板应有标记，实际: {}",
        focused[0]
    );
    assert!(!unfocused[0].contains('◀'));
}

#[test]
fn record_renders_header_hex_and_ascii() {
    let slot = slot_with(vec![Record::new(Direction::Tx, 1, b"AT\r".to_vec())]);
    let joined = panel(&slot, false, 40, 8).join("\n");
    assert!(joined.contains("TX 3B"), "缺少头行，实际:\n{joined}");
    assert!(joined.contains("41 54 0D"), "缺少 hex 列，实际:\n{joined}");
    assert!(joined.contains("AT."), "缺少 ascii 列，实际:\n{joined}");
}

#[test]
fn info_record_shows_note_instead_of_bytes() {
    let slot = slot_with(vec![Record::info(1, "建链成功")]);
    let joined = panel(&slot, false, 40, 6).join("\n");
    assert!(joined.contains("建链成功"), "实际:\n{joined}");
}

#[test]
fn narrow_panel_uses_eight_bytes_per_line() {
    let data: Vec<u8> = (0..16).collect();
    let slot = slot_with(vec![Record::new(Direction::Rx, 1, data)]);
    let joined = panel(&slot, false, 40, 8).join("\n");
    let first_hex_line = joined
        .lines()
        .find(|l| l.contains("00 01 02"))
        .expect("应有 hex 行");
    assert!(
        !first_hex_line.contains("08"),
        "窄面板应每行 8 字节，实际: {first_hex_line}"
    );
}

#[test]
fn wide_panel_uses_sixteen_bytes_per_line() {
    let data: Vec<u8> = (0..16).collect();
    let slot = slot_with(vec![Record::new(Direction::Rx, 1, data)]);
    let joined = panel(&slot, false, 80, 8).join("\n");
    let line = joined
        .lines()
        .find(|l| l.contains("00 01 02"))
        .expect("应有 hex 行");
    assert!(line.contains("0F"), "宽面板应每行 16 字节，实际: {line}");
}

#[test]
fn newest_records_are_visible_when_following() {
    let recs: Vec<Record> = (0..50).map(|i| Record::info(1, &format!("行{i}"))).collect();
    let slot = slot_with(recs);
    let joined = panel(&slot, false, 40, 8).join("\n");
    assert!(
        joined.contains("行49"),
        "跟随模式应显示最新记录，实际:\n{joined}"
    );
    assert!(!joined.contains("行0\n"), "不应显示最早记录");
}

#[test]
fn scrolled_view_shows_older_records() {
    let recs: Vec<Record> = (0..50).map(|i| Record::info(1, &format!("行{i}"))).collect();
    let mut slot = slot_with(recs);
    slot.follow = false;
    slot.scroll = 40;
    let joined = panel(&slot, false, 40, 8).join("\n");
    assert!(!joined.contains("行49"), "已滚动时不应停在最新，实际:\n{joined}");
    assert!(joined.contains("行9"), "实际:\n{joined}");
}

fn whole(state: &AppState, w: u16, h: u16) -> String {
    render_lines(w, h, &draw(area(w, h), state)).join("\n")
}

fn ready_state() -> AppState {
    let mut s = AppState::new(AppConfig::default());
    s.port_desc = "/dev/ttyUSB0 115200 8N1".into();
    s.link = LinkState::Up;
    s.bind(1);
    s.bind(3);
    s
}

#[test]
fn status_bar_shows_port_and_link_state() {
    let out = whole(&ready_state(), 90, 20);
    let first = out.lines().next().unwrap();
    assert!(first.contains("/dev/ttyUSB0"), "实际: {first}");
    assert!(first.contains("MUX UP"), "实际: {first}");
}

#[test]
fn status_bar_shows_counters() {
    let mut s = ready_state();
    s.stats.rx_frames = 12;
    s.stats.tx_frames = 3;
    s.stats.fcs_errors = 1;
    let first = whole(&s, 90, 20).lines().next().unwrap().to_string();
    assert!(first.contains("rx 12"), "实际: {first}");
    assert!(first.contains("tx 3"), "实际: {first}");
    assert!(first.contains("fcs_err 1"), "实际: {first}");
}

#[test]
fn link_down_is_visible() {
    let mut s = ready_state();
    s.link = LinkState::Down;
    let first = whole(&s, 90, 20).lines().next().unwrap().to_string();
    assert!(first.contains("MUX DOWN"), "实际: {first}");
}

#[test]
fn both_channel_panels_are_drawn_side_by_side() {
    let out = whole(&ready_state(), 90, 20);
    let panel_row = out.lines().nth(1).unwrap();
    assert!(panel_row.contains("DLCI 1"), "实际: {panel_row}");
    assert!(panel_row.contains("DLCI 3"), "实际: {panel_row}");
}

#[test]
fn input_bar_shows_mode_and_target() {
    let out = whole(&ready_state(), 90, 20);
    assert!(out.contains("ASCII"), "应显示输入模式");
    assert!(out.contains("→ DLCI 1"), "应显示发送目标，实际:\n{out}");
}

#[test]
fn input_bar_reflects_hex_mode_and_typed_text() {
    let mut s = ready_state();
    s.input.toggle_mode();
    for c in "41 54".chars() {
        s.input.insert(c);
    }
    assert_eq!(s.input.mode, InputMode::Hex);
    let joined = whole(&s, 90, 20);
    assert!(joined.contains("HEX"), "实际:\n{joined}");
    assert!(joined.contains("41 54"), "实际:\n{joined}");
}

#[test]
fn notice_is_displayed_when_present() {
    let mut s = ready_state();
    s.notice = Some("十六进制位数必须为偶数".into());
    let joined = whole(&s, 90, 20);
    assert!(joined.contains("十六进制位数必须为偶数"), "实际:\n{joined}");
}

#[test]
fn empty_target_shows_placeholder() {
    let mut s = AppState::new(AppConfig::default());
    s.port_desc = "/dev/ttyUSB0".into();
    let joined = whole(&s, 90, 20);
    assert!(joined.contains("→ 无通道"), "实际:\n{joined}");
}

#[test]
fn renders_without_panic_on_tiny_terminal() {
    let _ = whole(&ready_state(), 20, 6);
    let _ = whole(&ready_state(), 8, 3);
}

#[test]
fn raw_view_overlays_the_main_screen() {
    let mut s = ready_state();
    s.show_raw = true;
    let out = whole(&s, 90, 20);
    assert!(out.contains("原始帧"), "实际:\n{out}");
}

#[test]
fn dialog_overlays_everything() {
    let mut s = ready_state();
    s.show_raw = true;
    s.dialog = Some(Dialog::Control { selected: 0 });
    let out = whole(&s, 90, 20);
    assert!(out.contains("控制通道命令"), "弹窗应在最上层，实际:\n{out}");
}

fn raw(state: &AppState, w: u16, h: u16) -> String {
    render_lines(w, h, &render_raw(area(w, h), state)).join("\n")
}

#[test]
fn shows_frame_summaries() {
    let mut s = AppState::new(AppConfig::default());
    s.push_raw(RawEntry::from_frame(&MuxFrame::sabm(1), true));
    let out = raw(&s, 70, 10);
    assert!(out.contains("SABM"), "实际:\n{out}");
    assert!(out.contains("TX"), "实际:\n{out}");
}

#[test]
fn marks_fcs_failures() {
    let mut s = AppState::new(AppConfig::default());
    s.push_raw(RawEntry::bad("FCS 不匹配", vec![0xF9, 0x03, 0x3F]));
    let out = raw(&s, 70, 10);
    assert!(out.contains("[FCS 失败]"), "实际:\n{out}");
}

#[test]
fn shows_raw_bytes_in_hex() {
    let mut s = AppState::new(AppConfig::default());
    s.push_raw(RawEntry::bad("垃圾", vec![0xDE, 0xAD]));
    let out = raw(&s, 70, 10);
    assert!(out.contains("DE AD"), "实际:\n{out}");
}

#[test]
fn title_explains_how_to_exit() {
    let s = AppState::new(AppConfig::default());
    let out = raw(&s, 70, 10);
    assert!(out.contains("Ctrl+R"), "实际:\n{out}");
}

#[test]
fn empty_log_renders_without_panic() {
    let s = AppState::new(AppConfig::default());
    let _ = raw(&s, 20, 4);
}

fn dialog(d: &Dialog, w: u16, h: u16) -> String {
    render_lines(w, h, &render_dialog(area(w, h), d)).join("\n")
}

#[test]
fn bind_dialog_shows_prompt_and_typed_digits() {
    let out = dialog(&Dialog::Bind { slot: 0, input: "12".into() }, 60, 12);
    assert!(out.contains("DLCI"), "实际:\n{out}");
    assert!(out.contains("12"), "实际:\n{out}");
    assert!(out.contains("1-63"), "应提示取值范围，实际:\n{out}");
}

#[test]
fn bind_dialog_names_the_target_slot() {
    let out = dialog(&Dialog::Bind { slot: 1, input: String::new() }, 60, 12);
    assert!(out.contains("槽位 2"), "实际:\n{out}");
}

#[test]
fn control_dialog_lists_all_items() {
    let out = dialog(&Dialog::Control { selected: 0 }, 60, 12);
    assert!(out.contains("MSC"), "实际:\n{out}");
    assert!(out.contains("DISC"), "实际:\n{out}");
    assert!(out.contains("CLD"), "实际:\n{out}");
}

#[test]
fn control_dialog_marks_selection() {
    let out = dialog(&Dialog::Control { selected: 1 }, 60, 12);
    let line = out.lines().find(|l| l.contains("DISC")).unwrap();
    assert!(line.contains('▶'), "选中项应有标记，实际: {line}");
}

#[test]
fn tiny_area_does_not_panic() {
    let _ = dialog(&Dialog::Control { selected: 0 }, 10, 4);
    let _ = dialog(&Dialog::Bind { slot: 0, input: String::new() }, 6, 3);
    let _ = dialog(&Dialog::Help, 6, 3);
}

#[test]
fn help_dialog_lists_every_key() {
    let out = dialog(&Dialog::Help, 80, 24);
    for (key, what) in HELP_KEYS {
        assert!(out.contains(key), "{key} 不在:\n{out}");
        assert!(out.contains(what), "{what} 不在:\n{out}");
    }
    assert!(out.contains("任意键"), "实际:\n{out}");
}

fn plain_text(l: &Line) -> String {
    l.spans.iter().map(|s| s.text.as_str()).collect()
}

#[test]
fn the_control_list_is_exact() {
    let drawing = render_dialog(area(100, 40), &Dialog::Control { selected: 2 });
    match &drawing[..] {
        [Draw::Clear(a), Draw::Paragraph { area: b, lines, block: Some(block), .. }] => {
            assert_eq!(*a, Rect { x: 26, y: 16, width: 48, height: 8 });
            assert_eq!(a, b);
            assert_eq!(plain_text(&block.title), " 控制通道命令 ");
            let texts: Vec<String> = lines.iter().map(plain_text).collect();
            assert_eq!(texts[1], format!("    {}", CONTROL_ITEMS[0]));
            assert_eq!(texts[3], format!("  ▶ {}", CONTROL_ITEMS[2]));
            assert!(lines[3].spans[0].style.bold);
            assert_eq!(texts[5], "  ↑↓ 选择，回车执行，Esc 取消");
        }
        other => panic!("{other:?}"),
    }
}

#[test]
fn a_panel_is_filled_from_the_latest_line() {
    let recs = vec![
        Record::new(Direction::Rx, 1, (0..30).collect()),
        Record::new(Direction::Tx, 1, (0..20).collect()),
    ];
    match render_channel(area(40, 7), &slot_with(recs), 1, true) {
        Draw::Paragraph { lines, block: Some(block), .. } => {
            let texts: Vec<String> = lines.iter().map(plain_text).collect();
            assert_eq!(texts.len(), 5);
            assert!(texts[0].starts_with("18 19"), "{texts:?}");
            assert!(texts[1].ends_with("TX 20B"), "{texts:?}");
            assert!(texts[4].starts_with("10 11 12 13"), "{texts:?}");
            assert_eq!(plain_text(&block.title), "[F2] DLCI 1 UP ◀");
            assert_eq!(block.border.fg, Some(Color::Yellow));
            assert!(block.border.bold);
        }
        other => panic!("{other:?}"),
    }
}

#[test]
fn the_width_of_a_panel_decides_at_its_inner_width() {
    let rec = || vec![Record::new(Direction::Rx, 1, (0..16).collect())];
    let count = |w| match render_channel(area(w, 20), &slot_with(rec()), 0, false) {
        Draw::Paragraph { lines, .. } => lines.len(),
        other => panic!("{other:?}"),
    };
    assert_eq!(count(68), 2);
    assert_eq!(count(67), 3);
}

#[test]
fn the_states_of_a_channel_have_words() {
    let title = |state| {
        let slot = ChannelSlot { dlci: Some(9), state, ..Default::default() };
        match render_channel(area(40, 5), &slot, 0, false) {
            Draw::Paragraph { block: Some(b), .. } => plain_text(&b.title),
            other => panic!("{other:?}"),
        }
    };
    assert_eq!(title(DlcState::Open), "[F1] DLCI 9 UP");
    assert_eq!(title(DlcState::Opening { attempts: 1 }), "[F1] DLCI 9 建链中");
    assert_eq!(title(DlcState::Closing { attempts: 1 }), "[F1] DLCI 9 关闭中");
    assert_eq!(title(DlcState::Failed), "[F1] DLCI 9 FAILED");
    assert_eq!(title(DlcState::Closed), "[F1] DLCI 9 DOWN");
}

#[test]
fn the_parts_of_the_screen_go_where_they_are_told() {
    let rows = vec![area(30, 1), area(30, 9), Rect { x: 0, y: 10, width: 30, height: 3 }];
    let cols = vec![area(15, 9), Rect { x: 15, y: 1, width: 15, height: 9 }];
    let drawing = draw_in(area(30, 13), &rows, &cols, &ready_state());
    let places: Vec<Rect> = drawing
        .iter()
        .map(|d| match d {
            Draw::Paragraph { area, .. } => *area,
            Draw::Clear(area) => *area,
        })
        .collect();
    assert_eq!(places, vec![rows[0], cols[0], cols[1], rows[2]]);
    match &drawing[0] {
        Draw::Paragraph { lines, style, .. } => {
            assert_eq!(
                plain_text(&lines[0]),
                " /dev/ttyUSB0 115200 8N1 │ ● MUX UP │ rx 0 tx 0 │ fcs_err 0 "
            );
            assert_eq!(style.bg, Some(Color::Rgb(28, 28, 34)));
        }
        other => panic!("{other:?}"),
    }
    match &drawing[3] {
        Draw::Paragraph { lines, .. } => {
            assert_eq!(plain_text(&lines[0]), " ASCII  ▌  → DLCI 1");
        }
        other => panic!("{other:?}"),
    }
}

#[test]
fn the_screen_is_divided_as_asked() {
    let drawing = draw(area(90, 20), &ready_state());
    let places: Vec<Rect> = drawing
        .iter()
        .map(|d| match d {
            Draw::Paragraph { area, .. } => *area,
            Draw::Clear(area) => *area,
        })
        .collect();
    assert_eq!(
        places,
        vec![
            area(90, 1),
            Rect { x: 0, y: 1, width: 45, height: 16 },
            Rect { x: 45, y: 1, width: 45, height: 16 },
            Rect { x: 0, y: 17, width: 90, height: 3 },
        ]
    );
}

#[test]
fn wide_characters_take_two_cells() {
    assert!(is_wide('建'));
    assert!(is_wide('：'));
    assert!(!is_wide('◀'));
    assert!(!is_wide('●'));
    assert!(!is_wide('a'));
    let cells = |s: &[&str]| s.iter().map(|c| c.to_string()).collect::<Vec<_>>();
    assert_eq!(row_text(&cells(&["建", " ", "链", " ", "a", " "])), "建链a");
    assert_eq!(row_text(&cells(&["a", " ", "b"])), "a b");
    assert_eq!(row_text(&cells(&["a", "建"])), "a建");
    assert_eq!(row_text(&cells(&[])), "");
}

#[test]
fn dialogs_stay_inside_their_area() {
    let dialogs = [
        Dialog::Help,
        Dialog::Control { selected: 0 },
        Dialog::Bind { slot: 0, input: String::new() },
    ];
    for d in &dialogs {
        for (x, y, w, h) in [(0, 0, 200, 60), (5, 9, 20, 4), (3, 3, 1, 1), (0, 0, 0, 0)] {
            for drawn in render_dialog(Rect { x, y, width: w, height: h }, d) {
                let a = match drawn {
                    Draw::Clear(a) => a,
                    Draw::Paragraph { area, .. } => area,
                };
                assert!(a.x >= x && a.y >= y, "{a:?}");
                assert!(a.x + a.width <= x + w && a.y + a.height <= y + h, "{a:?}");
            }
        }
    }
}
