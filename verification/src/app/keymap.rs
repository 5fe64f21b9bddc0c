//! From keys to commands.
//!
//! A key changes what is only on the screen: the input line, the focus, the
//! scrolling, the dialogs. Whatever needs the serial line or a file comes back as
//! a [`Command`].
//!
//! The input mode is changed by Ctrl+T, because a terminal sends Ctrl+H as
//! Backspace; Ctrl+I, Ctrl+M and Ctrl+J are Tab and Enter in the same way.
#[allow(unused_imports)]
use crate::app::input;
use crate::app::input::parse_input_with;
use crate::app::state::{AppState, AppView, Dialog, DialogView, SLOT_COUNT};
use crate::mux::frame::copy_bytes;
#[allow(unused_imports)]
use crate::text;
use crate::text::parse_number;
use vstd::prelude::*;
use vstd::string::*;

verus! {

/// A key, as far as it matters here.
#[derive(Debug, Clone, Copy, PartialEq, Eq, Structural)]
pub enum KeyCode {
    Char(char),
    F(u8),
    Backspace,
    Tab,
    Enter,
    Esc,
    Up,
    Down,
    PageUp,
    PageDown,
    End,
    /// Any other key.
    Other,
}

/// A key that was pressed, and whether Ctrl was down.
#[derive(Debug, Clone, Copy, PartialEq, Eq, Structural)]
pub struct KeyEvent {
    pub code: KeyCode,
    pub ctrl: bool,
}

/// What the main loop is to do.
#[derive(Debug, PartialEq, Eq)]
pub enum Command {
    Nothing,
    Quit,
    /// Send data on a channel.
    Send { dlci: u8, bytes: Vec<u8> },
    /// Open a channel and bind it to the slot.
    OpenDlc { dlci: u8, slot: usize },
    /// Close a channel.
    CloseDlc { dlci: u8 },
    /// Send MSC for a channel.
    SendMsc { dlci: u8 },
    /// Close down the multiplexer.
    CloseMux,
    /// Start or stop the log.
    ToggleLog,
}

/// What a [`Command`] holds.
#[verifier::ext_equal]
pub enum CommandView {
    Nothing,
    Quit,
    Send { dlci: u8, bytes: Seq<u8> },
    OpenDlc { dlci: u8, slot: usize },
    CloseDlc { dlci: u8 },
    SendMsc { dlci: u8 },
    CloseMux,
    ToggleLog,
}

impl View for Command {
    type V = CommandView;

    open spec fn view(&self) -> CommandView {
        match self {
            Command::Nothing => CommandView::Nothing,
            Command::Quit => CommandView::Quit,
            Command::Send { dlci, bytes } => CommandView::Send { dlci: *dlci, bytes: bytes@ },
            Command::OpenDlc { dlci, slot } => CommandView::OpenDlc { dlci: *dlci, slot: *slot },
            Command::CloseDlc { dlci } => CommandView::CloseDlc { dlci: *dlci },
            Command::SendMsc { dlci } => CommandView::SendMsc { dlci: *dlci },
            Command::CloseMux => CommandView::CloseMux,
            Command::ToggleLog => CommandView::ToggleLog,
        }
    }
}

impl Clone for Command {
    fn clone(&self) -> (c: Self)
        ensures
            c@ == self@,
    {
        match self {
            Command::Nothing => Command::Nothing,
            Command::Quit => Command::Quit,
            Command::Send { dlci, bytes } => Command::Send {
                dlci: *dlci,
                bytes: copy_bytes(bytes),
            },
            Command::OpenDlc { dlci, slot } => Command::OpenDlc { dlci: *dlci, slot: *slot },
            Command::CloseDlc { dlci } => Command::CloseDlc { dlci: *dlci },
            Command::SendMsc { dlci } => Command::SendMsc { dlci: *dlci },
            Command::CloseMux => Command::CloseMux,
            Command::ToggleLog => Command::ToggleLog,
        }
    }
}

/// The state with a message at the bottom.
pub open spec fn noticed(s: AppView, words: Seq<char>) -> AppView {
    AppView { notice: Some(words), ..s }
}

/// The state with a dialog open.
pub open spec fn showing(s: AppView, dialog: DialogView) -> AppView {
    AppView { dialog: Some(dialog), ..s }
}

/// The state without a dialog.
pub open spec fn closed(s: AppView) -> AppView {
    AppView { dialog: None, ..s }
}

/// Enter on the input line: what it says is sent on the channel in focus and the
/// line goes into the history. A line that cannot be read stays, with the reason
/// at the bottom.
pub open spec fn submitted(s: AppView) -> (AppView, CommandView) {
    match s.target() {
        None => (noticed(s, "当前槽位未绑定通道，按 Ctrl+O 绑定"@), CommandView::Nothing),
        Some(dlci) => match input::parsed(s.input.buffer, s.input.mode, s.cfg.line_ending) {
            Ok(bytes) => (
                AppView { input: s.input.submitted(), ..s },
                CommandView::Send { dlci, bytes },
            ),
            Err(why) => (noticed(s, why), CommandView::Nothing),
        },
    }
}

/// A key in the dialog that asks for a channel: digits, up to two of them, and
/// Enter, which takes a number from 1 to 63.
pub open spec fn bind_key(s: AppView, slot: usize, typed: Seq<char>, code: KeyCode) -> (
    AppView,
    CommandView,
) {
    match code {
        KeyCode::Char(c) => if '0' <= c <= '9' {
            let input = if vstd::utf8::encode_utf8(typed).len() < 2 {
                typed.push(c)
            } else {
                typed
            };
            (showing(s, DialogView::Bind { slot, input }), CommandView::Nothing)
        } else {
            (s, CommandView::Nothing)
        },
        KeyCode::Backspace => {
            let input = if typed.len() > 0 {
                typed.drop_last()
            } else {
                typed
            };
            (showing(s, DialogView::Bind { slot, input }), CommandView::Nothing)
        },
        KeyCode::Enter => match text::number_up_to(typed, 255) {
            Some(dlci) if 1 <= dlci <= 63 => (
                closed(s),
                CommandView::OpenDlc { dlci: dlci as u8, slot },
            ),
            _ => (noticed(s, "DLCI 必须在 1-63 之间"@), CommandView::Nothing),
        },
        _ => (s, CommandView::Nothing),
    }
}

/// A key in the list of control commands: up, down, and Enter, which closes the
/// list and gives the command that is marked.
pub open spec fn control_key(s: AppView, selected: usize, code: KeyCode) -> (AppView, CommandView) {
    match code {
        KeyCode::Up => {
            let n = if selected == 0 {
                0
            } else {
                selected - 1
            };
            (showing(s, DialogView::Control { selected: n as usize }), CommandView::Nothing)
        },
        KeyCode::Down => {
            let n = if selected >= 2 {
                2
            } else {
                selected + 1
            };
            (showing(s, DialogView::Control { selected: n as usize }), CommandView::Nothing)
        },
        KeyCode::Enter => if selected >= 2 {
            (closed(s), CommandView::CloseMux)
        } else {
            match s.target() {
                Some(dlci) => (
                    closed(s),
                    if selected == 0 {
                        CommandView::SendMsc { dlci }
                    } else {
                        CommandView::CloseDlc { dlci }
                    },
                ),
                None => (noticed(closed(s), "当前槽位未绑定通道"@), CommandView::Nothing),
            }
        },
        _ => (s, CommandView::Nothing),
    }
}

/// A key while a dialog is open: Esc closes any of them, and the help goes away
/// with any key.
pub open spec fn key_in_dialog(s: AppView, dialog: DialogView, code: KeyCode) -> (
    AppView,
    CommandView,
) {
    if code == KeyCode::Esc {
        (closed(s), CommandView::Nothing)
    } else {
        match dialog {
            DialogView::Help => (closed(s), CommandView::Nothing),
            DialogView::Bind { slot, input } => bind_key(s, slot, input, code),
            DialogView::Control { selected } => control_key(s, selected, code),
        }
    }
}

/// A letter with Ctrl.
pub open spec fn ctrl_key(s: AppView, c: char) -> (AppView, CommandView) {
    if c == 'q' {
        (s, CommandView::Quit)
    } else if c == 's' {
        (s, CommandView::ToggleLog)
    } else if c == 't' {
        (AppView { input: s.input.toggled(), ..s }, CommandView::Nothing)
    } else if c == 'r' {
        (AppView { show_raw: !s.show_raw, ..s }, CommandView::Nothing)
    } else if c == 'l' {
        (s.with_focused(s.focused().cleared()), CommandView::Nothing)
    } else if c == 'o' {
        (
            showing(s, DialogView::Bind { slot: s.focus, input: Seq::empty() }),
            CommandView::Nothing,
        )
    } else if c == 'k' {
        (showing(s, DialogView::Control { selected: 0 }), CommandView::Nothing)
    } else if c == 'g' {
        (showing(s, DialogView::Help), CommandView::Nothing)
    } else {
        (s, CommandView::Nothing)
    }
}

/// A key while no dialog is open.
pub open spec fn key_on_screen(s: AppView, key: KeyEvent) -> (AppView, CommandView) {
    match key.code {
        KeyCode::Char(c) => if key.ctrl {
            ctrl_key(s, c)
        } else {
            (
                AppView { input: s.input.typed(s.input.buffer.push(c)), ..s },
                CommandView::Nothing,
            )
        },
        KeyCode::Backspace => (
            AppView { input: s.input.shortened(), ..s },
            CommandView::Nothing,
        ),
        KeyCode::Tab => (
            AppView { focus: ((s.focus + 1) % (s.slots.len() as int)) as usize, ..s },
            CommandView::Nothing,
        ),
        KeyCode::F(n) => (
            if 1 <= n <= 2 && n - 1 < s.slots.len() {
                AppView { focus: (n - 1) as usize, ..s }
            } else {
                s
            },
            CommandView::Nothing,
        ),
        KeyCode::Up => (AppView { input: s.input.earlier(), ..s }, CommandView::Nothing),
        KeyCode::Down => (AppView { input: s.input.later(), ..s }, CommandView::Nothing),
        KeyCode::PageUp => (
            s.with_focused(s.focused().scrolled(-5)),
            CommandView::Nothing,
        ),
        KeyCode::PageDown => (
            s.with_focused(s.focused().scrolled(5)),
            CommandView::Nothing,
        ),
        KeyCode::End => (s.with_focused(s.focused().followed()), CommandView::Nothing),
        KeyCode::Enter => submitted(s),
        _ => (s, CommandView::Nothing),
    }
}

/// A key: the message at the bottom goes away, then the dialog that is open, or
/// the screen, has the key.
#[verifier::opaque]
pub open spec fn pressed(s: AppView, key: KeyEvent) -> (AppView, CommandView) {
    let quiet = AppView { notice: None, ..s };
    match s.dialog {
        Some(dialog) => key_in_dialog(quiet, dialog, key.code),
        None => key_on_screen(quiet, key),
    }
}

/// Takes a key: changes the screen, and says what is to be done.
pub fn map_key(state: &mut AppState, key: KeyEvent) -> (cmd: Command)
    requires
        old(state)@.in_focus(),
        old(state)@.input.wf(),
    ensures
        (final(state)@, cmd@) == pressed(old(state)@, key),
{
    proof {
        reveal(pressed);
    }
    state.notice = None;
    if state.dialog.is_some() {
        return dialog_key(state, key);
    }
    match key.code {
        KeyCode::Char(c) => {
            if !key.ctrl {
                state.input.insert(c);
                Command::Nothing
            } else if c == 'q' {
                Command::Quit
            } else if c == 's' {
                Command::ToggleLog
            } else {
                if c == 't' {
                    state.input.toggle_mode();
                } else if c == 'r' {
                    state.show_raw = !state.show_raw;
                } else if c == 'l' {
                    state.clear_focused();
                } else if c == 'o' {
                    let slot: usize = state.focus;
                    state.dialog = Some(Dialog::Bind { slot, input: String::new() });
                    assert(state@ =~= pressed(old(state)@, key).0);
                } else if c == 'k' {
                    state.dialog = Some(Dialog::Control { selected: 0 });
                } else if c == 'g' {
                    state.dialog = Some(Dialog::Help);
                }
                Command::Nothing
            }
        },
        KeyCode::Backspace => {
            state.input.backspace();
            Command::Nothing
        },
        KeyCode::Tab => {
            assert(state.slots.len() == state.slots@.len());
            state.focus_next();
            Command::Nothing
        },
        KeyCode::F(n) => {
            if 1 <= n && n <= 2 {
                state.set_focus((n - 1) as usize);
            }
            Command::Nothing
        },
        KeyCode::Up => {
            state.input.history_prev();
            Command::Nothing
        },
        KeyCode::Down => {
            state.input.history_next();
            Command::Nothing
        },
        KeyCode::PageUp => {
            state.scroll_focused(-5);
            Command::Nothing
        },
        KeyCode::PageDown => {
            state.scroll_focused(5);
            Command::Nothing
        },
        KeyCode::End => {
            state.follow_focused();
            Command::Nothing
        },
        KeyCode::Enter => submit(state),
        _ => Command::Nothing,
    }
}

/// Enter on the input line.
fn submit(state: &mut AppState) -> (cmd: Command)
    requires
        old(state)@.in_focus(),
    ensures
        (final(state)@, cmd@) == submitted(old(state)@),
{
    match state.target_dlci() {
        None => {
            state.notice = Some("当前槽位未绑定通道，按 Ctrl+O 绑定".to_string());
            Command::Nothing
        },
        Some(dlci) => match parse_input_with(
            state.input.buffer.as_str(),
            state.input.mode,
            state.cfg.line_ending,
        ) {
            Ok(bytes) => {
                let _ = state.input.submit();
                Command::Send { dlci, bytes }
            },
            Err(why) => {
                state.notice = Some(why);
                Command::Nothing
            },
        },
    }
}

/// A key while a dialog is open.
fn dialog_key(state: &mut AppState, key: KeyEvent) -> (cmd: Command)
    requires
        old(state)@.in_focus(),
        old(state)@.dialog is Some,
    ensures
        (final(state)@, cmd@) == key_in_dialog(old(state)@, old(state)@.dialog->0, key.code),
{
    let dialog = match &state.dialog {
        Some(d) => d.clone(),
        None => {
            return Command::Nothing;
        },
    };
    if key.code == KeyCode::Esc {
        state.dialog = None;
        return Command::Nothing;
    }
    match dialog {
        Dialog::Help => {
            state.dialog = None;
            Command::Nothing
        },
        Dialog::Bind { slot, input } => {
            let mut input = input;
            match key.code {
                KeyCode::Char(c) => {
                    if '0' <= c && c <= '9' {
                        if input.as_str().as_bytes().len() < 2 {
                            input.push(c);
                        }
                        state.dialog = Some(Dialog::Bind { slot, input });
                    }
                    Command::Nothing
                },
                KeyCode::Backspace => {
                    let _ = input.pop();
                    state.dialog = Some(Dialog::Bind { slot, input });
                    Command::Nothing
                },
                KeyCode::Enter => match parse_number(input.as_str(), 255) {
                    Some(dlci) if 1 <= dlci && dlci <= 63 => {
                        state.dialog = None;
                        Command::OpenDlc { dlci: dlci as u8, slot }
                    },
                    _ => {
                        state.notice = Some("DLCI 必须在 1-63 之间".to_string());
                        Command::Nothing
                    },
                },
                _ => Command::Nothing,
            }
        },
        Dialog::Control { selected } => match key.code {
            KeyCode::Up => {
                let n: usize = if selected == 0 {
                    0
                } else {
                    selected - 1
                };
                state.dialog = Some(Dialog::Control { selected: n });
                Command::Nothing
            },
            KeyCode::Down => {
                let n: usize = if selected >= 2 {
                    2
                } else {
                    selected + 1
                };
                state.dialog = Some(Dialog::Control { selected: n });
                Command::Nothing
            },
            KeyCode::Enter => {
                state.dialog = None;
                if selected >= 2 {
                    return Command::CloseMux;
                }
                match state.target_dlci() {
                    Some(dlci) => if selected == 0 {
                        Command::SendMsc { dlci }
                    } else {
                        Command::CloseDlc { dlci }
                    },
                    None => {
                        state.notice = Some("当前槽位未绑定通道".to_string());
                        Command::Nothing
                    },
                }
            },
            _ => Command::Nothing,
        },
    }
}

/// A text has at least as many bytes as characters.
proof fn lemma_bytes_cover_chars(s: Seq<char>)
    ensures
        vstd::utf8::encode_utf8(s).len() >= s.len(),
    decreases s.len(),
{
    if s.len() > 0 {
        lemma_bytes_cover_chars(s.drop_first());
    }
}

/// Keys in a dialog keep the state in order.
proof fn lemma_dialog_keeps_order(s: AppView, dialog: DialogView, code: KeyCode)
    requires
        s.wf(),
        s.dialog == Some(dialog),
    ensures
        key_in_dialog(s, dialog, code).0.wf(),
        key_in_dialog(s, dialog, code).1 matches CommandView::OpenDlc { dlci, slot } ==> 1 <= dlci
            <= 63 && slot < SLOT_COUNT,
{
    match dialog {
        DialogView::Bind { slot, input } => {
            lemma_bytes_cover_chars(input);
            assert(key_in_dialog(s, dialog, code).0.slots == s.slots);
        },
        _ => {},
    }
}

/// Keys on the screen keep the state in order.
proof fn lemma_screen_keeps_order(s: AppView, key: KeyEvent)
    requires
        s.wf(),
    ensures
        key_on_screen(s, key).0.wf(),
        !(key_on_screen(s, key).1 is OpenDlc),
{
    let after = key_on_screen(s, key).0;
    match key.code {
        KeyCode::Char(c) => if key.ctrl && c == 'l' {
            assert(s.focused().cleared().wf(s.cfg.max_records as nat));
        } else {
            assert(after.slots == s.slots);
        },
        KeyCode::PageUp => {
            assert(s.focused().scrolled(-5).wf(s.cfg.max_records as nat));
        },
        KeyCode::PageDown => {
            assert(s.focused().scrolled(5).wf(s.cfg.max_records as nat));
        },
        KeyCode::End => {
            assert(s.focused().followed().wf(s.cfg.max_records as nat));
        },
        _ => {
            assert(after.slots == s.slots);
        },
    }
}

/// Keys keep the state in order, and a request to open a channel names a channel
/// from 1 to 63 and a slot that exists.
pub proof fn law_keys_keep_order(s: AppView, key: KeyEvent)
    requires
        s.wf(),
    ensures
        pressed(s, key).0.wf(),
        pressed(s, key).1 matches CommandView::OpenDlc { dlci, slot } ==> 1 <= dlci <= 63 && slot
            < SLOT_COUNT,
{
    reveal(pressed);
    let quiet = AppView { notice: None, ..s };
    match s.dialog {
        Some(dialog) => lemma_dialog_keeps_order(quiet, dialog, key.code),
        None => lemma_screen_keeps_order(quiet, key),
    }
}

/// Keys change nothing but the screen: not the channels and their states, the
/// counters, the raw view's contents, the link or the settings.
pub proof fn law_keys_touch_only_the_screen(s: AppView, key: KeyEvent, i: int)
    requires
        s.wf(),
        0 <= i < SLOT_COUNT,
    ensures
        ({
            let after = pressed(s, key).0;
            &&& after.cfg == s.cfg
            &&& after.link == s.link
            &&& after.stats == s.stats
            &&& after.unrouted == s.unrouted
            &&& after.raw_log == s.raw_log
            &&& after.port_desc == s.port_desc
            &&& after.slots.len() == s.slots.len()
            &&& after.slots[i].dlci == s.slots[i].dlci
            &&& after.slots[i].state == s.slots[i].state
            &&& after.slots[i].records == s.slots[i].records || after.slots[i].records
                == Seq::<crate::app::record::RecordView>::empty()
        }),
{
    reveal(pressed);
}

/// While a dialog is open no key reaches the input line; Esc closes the dialog,
/// and asks for nothing.
pub proof fn law_dialog_has_the_keys(s: AppView, key: KeyEvent)
    requires
        s.dialog is Some,
    ensures
        pressed(s, key).0.input == s.input,
        key.code == KeyCode::Esc ==> pressed(s, key).0.dialog is None && pressed(s, key).1
            == CommandView::Nothing,
        s.dialog == Some(DialogView::Help) ==> pressed(s, key).0.dialog is None && pressed(
            s,
            key,
        ).1 == CommandView::Nothing,
{
    reveal(pressed);
}

/// A line that cannot be read is not sent and not lost: it stays as it is, and
/// the reason is at the bottom.
pub proof fn law_unreadable_line_is_kept(s: AppView, key: KeyEvent)
    requires
        s.dialog is None,
        key.code == KeyCode::Enter,
        input::parsed(s.input.buffer, s.input.mode, s.cfg.line_ending) is Err,
    ensures
        pressed(s, key).1 == CommandView::Nothing,
        pressed(s, key).0.input == s.input,
        pressed(s, key).0.notice is Some,
{
    reveal(pressed);
}

/// A message at the bottom is gone with the next key: what it was plays no part in
/// what the key does.
pub proof fn law_notice_is_forgotten(s: AppView, key: KeyEvent, words: Seq<char>)
    ensures
        pressed(AppView { notice: Some(words), ..s }, key) == pressed(
            AppView { notice: None, ..s },
            key,
        ),
{
    reveal(pressed);
}

/// A line that can be read is sent to the channel in focus; the input line is empty
/// then, and the line is the latest in its history.
pub proof fn law_readable_line_is_sent(s: AppView, key: KeyEvent, dlci: u8, bytes: Seq<u8>)
    requires
        s.dialog is None,
        key.code == KeyCode::Enter,
        s.target() == Some(dlci),
        s.input.buffer.len() > 0,
        input::parsed(s.input.buffer, s.input.mode, s.cfg.line_ending) == Ok::<
            Seq<u8>,
            Seq<char>,
        >(bytes),
    ensures
        pressed(s, key).1 == (CommandView::Send { dlci, bytes }),
        pressed(s, key).0.input.buffer == Seq::<char>::empty(),
        pressed(s, key).0.input.history.last() == s.input.buffer,
{
    reveal(pressed);
}

/// The screen after some characters were typed.
pub open spec fn after_chars(s: AppView, chars: Seq<char>) -> AppView
    decreases chars.len(),
{
    if chars.len() == 0 {
        s
    } else {
        let before = after_chars(s, chars.drop_last());
        pressed(before, KeyEvent { code: KeyCode::Char(chars.last()), ctrl: false }).0
    }
}

/// Ctrl+O, the number of a channel and Enter ask for that channel in the slot in
/// focus, and leave the rest of the screen as it was.
pub proof fn law_bind_dialog_opens_in_focus(s: AppView, dlci: u8)
    requires
        s.dialog is None,
        1 <= dlci <= 63,
    ensures
        ({
            let asked = pressed(s, KeyEvent { code: KeyCode::Char('o'), ctrl: true }).0;
            let filled = after_chars(asked, text::decimal(dlci as nat));
            pressed(filled, KeyEvent { code: KeyCode::Enter, ctrl: false }) == (
                AppView { notice: None, ..s },
                CommandView::OpenDlc { dlci, slot: s.focus },
            )
        }),
{
    reveal(pressed);
    let asked = pressed(s, KeyEvent { code: KeyCode::Char('o'), ctrl: true }).0;
    let digits = text::decimal(dlci as nat);
    reveal_with_fuel(text::decimal, 3);
    reveal_with_fuel(text::digits_value, 3);
    reveal_with_fuel(after_chars, 3);
    reveal_with_fuel(vstd::utf8::encode_utf8, 3);
    let quiet = AppView { notice: None, ..s };
    let dialog = |typed: Seq<char>|
        AppView { dialog: Some(DialogView::Bind { slot: s.focus, input: typed }), ..quiet };
    assert(asked == dialog(Seq::empty()));
    if dlci < 10 {
        assert(digits.drop_last() =~= Seq::empty());
        assert(Seq::<char>::empty().push(digits[0]) =~= digits);
    } else {
        let first = seq![text::digit(dlci as nat / 10)];
        assert(digits.drop_last() =~= first);
        assert(first.drop_last() =~= Seq::empty());
        assert(Seq::<char>::empty().push(first[0]) =~= first);
        assert(first.push(digits[1]) =~= digits);
        assert(after_chars(asked, first) == dialog(first));
    }
    assert(after_chars(asked, digits) == dialog(digits));
}

/// What the keys do while no dialog is open. Characters go to the input line, and
/// Backspace takes the last away. Tab goes to the next slot and round again, F1 and F2 to
/// theirs. The arrows walk the history. The page keys scroll the slot in focus by five
/// records, and End goes back to its latest. The message at the bottom goes away with
/// each, and nothing else changes.
pub proof fn law_keys_of_the_screen(s: AppView, c: char, ctrl: bool, n: u8)
    requires
        s.wf(),
        s.dialog is None,
    ensures
        ({
            let quiet = AppView { notice: None, ..s };
            let key = |code: KeyCode| pressed(s, KeyEvent { code, ctrl });
            let still = CommandView::Nothing;
            &&& !ctrl ==> key(KeyCode::Char(c)) == (
                AppView { input: s.input.typed(s.input.buffer.push(c)), ..quiet },
                still,
            )
            &&& key(KeyCode::Backspace) == (AppView { input: s.input.shortened(), ..quiet }, still)
            &&& key(KeyCode::Tab) == (AppView { focus: (1 - s.focus) as usize, ..quiet }, still)
            &&& key(KeyCode::F(1)) == (AppView { focus: 0, ..quiet }, still)
            &&& key(KeyCode::F(2)) == (AppView { focus: 1, ..quiet }, still)
            &&& n == 0 || n > 2 ==> key(KeyCode::F(n)) == (quiet, still)
            &&& key(KeyCode::Up) == (AppView { input: s.input.earlier(), ..quiet }, still)
            &&& key(KeyCode::Down) == (AppView { input: s.input.later(), ..quiet }, still)
            &&& key(KeyCode::PageUp) == (
                quiet.with_focused(s.slots[s.focus as int].scrolled(-5)),
                still,
            )
            &&& key(KeyCode::PageDown) == (
                quiet.with_focused(s.slots[s.focus as int].scrolled(5)),
                still,
            )
            &&& key(KeyCode::End) == (
                quiet.with_focused(s.slots[s.focus as int].followed()),
                still,
            )
            &&& key(KeyCode::Esc) == (quiet, still)
            &&& key(KeyCode::Other) == (quiet, still)
        }),
{
    reveal(pressed);
}

/// What the letters do with Ctrl while no dialog is open. Q ends, S turns the log on or
/// off, T changes how input is read, R shows or hides the raw view, L empties the slot in
/// focus, O asks for a channel for it, K shows the control commands with the first
/// marked, G the keys. Every other does nothing.
pub proof fn law_keys_with_ctrl(s: AppView, c: char)
    requires
        s.dialog is None,
    ensures
        ({
            let quiet = AppView { notice: None, ..s };
            let (after, cmd) = pressed(s, KeyEvent { code: KeyCode::Char(c), ctrl: true });
            &&& cmd == (match c {
                'q' => CommandView::Quit,
                's' => CommandView::ToggleLog,
                _ => CommandView::Nothing,
            })
            &&& after == (match c {
                't' => AppView { input: s.input.toggled(), ..quiet },
                'r' => AppView { show_raw: !s.show_raw, ..quiet },
                'l' => quiet.with_focused(s.slots[s.focus as int].cleared()),
                'o' => AppView {
                    dialog: Some(DialogView::Bind { slot: s.focus, input: Seq::empty() }),
                    ..quiet
                },
                'k' => AppView { dialog: Some(DialogView::Control { selected: 0 }), ..quiet },
                'g' => AppView { dialog: Some(DialogView::Help), ..quiet },
                _ => quiet,
            })
        }),
{
    reveal(pressed);
}

/// What Enter does while no dialog is open. Without a channel in focus it only says so.
/// Else the line is sent there as the bytes it stands for and goes into the history; or,
/// where it cannot be read, it stays, and the reason is shown.
pub proof fn law_enter_sends_the_line(s: AppView, ctrl: bool)
    requires
        s.dialog is None,
    ensures
        ({
            let quiet = AppView { notice: None, ..s };
            let (after, cmd) = pressed(s, KeyEvent { code: KeyCode::Enter, ctrl });
            match s.slots[s.focus as int].dlci {
                None => {
                    &&& cmd == CommandView::Nothing
                    &&& after == (AppView {
                        notice: Some("当前槽位未绑定通道，按 Ctrl+O 绑定"@),
                        ..quiet
                    })
                },
                Some(dlci) => match input::parsed(s.input.buffer, s.input.mode, s.cfg.line_ending) {
                    Ok(bytes) => {
                        &&& cmd == (CommandView::Send { dlci, bytes })
                        &&& after == (AppView { input: s.input.submitted(), ..quiet })
                    },
                    Err(why) => {
                        &&& cmd == CommandView::Nothing
                        &&& after == (AppView { notice: Some(why), ..quiet })
                    },
                },
            }
        }),
{
    reveal(pressed);
}

/// What the keys do in the dialog that asks for a channel. Digits are taken as long as
/// there are fewer than two, Backspace takes the last away, Esc closes the dialog, and
/// Enter asks for the channel in the slot of the dialog and closes it, where the number is
/// from 1 to 63; else it says that it has to be, and the dialog stays. Every other key
/// does nothing.
pub proof fn law_keys_of_the_bind_dialog(
    s: AppView,
    slot: usize,
    typed: Seq<char>,
    code: KeyCode,
    ctrl: bool,
)
    requires
        s.dialog == Some(DialogView::Bind { slot, input: typed }),
        typed.len() <= 2,
        forall|i: int| 0 <= i < typed.len() ==> '0' <= #[trigger] typed[i] <= '9',
    ensures
        ({
            let quiet = AppView { notice: None, ..s };
            let (after, cmd) = pressed(s, KeyEvent { code, ctrl });
            let with = |input: Seq<char>|
                AppView { dialog: Some(DialogView::Bind { slot, input }), ..quiet };
            let value: int = if typed.len() == 0 {
                0
            } else if typed.len() == 1 {
                typed[0] as int - 48
            } else {
                (typed[0] as int - 48) * 10 + typed[1] as int - 48
            };
            match code {
                KeyCode::Char(c) => {
                    &&& cmd == CommandView::Nothing
                    &&& after == (if 0x30 <= c as int <= 0x39 && typed.len() < 2 {
                        with(typed.push(c))
                    } else {
                        quiet
                    })
                },
                KeyCode::Backspace => {
                    &&& cmd == CommandView::Nothing
                    &&& after == (if typed.len() > 0 {
                        with(typed.take(typed.len() - 1))
                    } else {
                        quiet
                    })
                },
                KeyCode::Enter => if 1 <= value <= 63 {
                    &&& cmd == (CommandView::OpenDlc { dlci: value as u8, slot })
                    &&& after == (AppView { dialog: None, ..quiet })
                } else {
                    &&& cmd == CommandView::Nothing
                    &&& after == (AppView { notice: Some("DLCI 必须在 1-63 之间"@), ..quiet })
                },
                KeyCode::Esc => {
                    &&& cmd == CommandView::Nothing
                    &&& after == (AppView { dialog: None, ..quiet })
                },
                _ => cmd == CommandView::Nothing && after == quiet,
            }
        }),
{
    reveal(pressed);
    lemma_digits_are_bytes(typed);
    reveal_with_fuel(text::digits_value, 3);
    assert(typed.len() > 0 ==> typed.take(typed.len() - 1) =~= typed.drop_last());
    if typed.len() == 2 {
        assert(typed.drop_last()[0] == typed[0]);
        assert(typed.drop_last().drop_last().len() == 0);
        assert(typed[0] != '+');
    }
    if typed.len() == 1 {
        assert(typed.drop_last().len() == 0);
    }
    let quiet = AppView { notice: None, ..s };
    assert(AppView { dialog: Some(DialogView::Bind { slot, input: typed }), ..quiet } == quiet);
}

/// Digits are one byte each.
proof fn lemma_digits_are_bytes(s: Seq<char>)
    requires
        forall|i: int| 0 <= i < s.len() ==> '0' <= #[trigger] s[i] <= '9',
    ensures
        vstd::utf8::encode_utf8(s).len() == s.len(),
    decreases s.len(),
{
    if s.len() > 0 {
        let rest = s.drop_first();
        assert forall|i: int| 0 <= i < rest.len() implies '0' <= #[trigger] rest[i] <= '9' by {
            assert(rest[i] == s[i + 1]);
        }
        lemma_digits_are_bytes(rest);
        assert(vstd::utf8::encode_scalar(s[0] as u32).len() == 1);
    }
}

/// What the keys do in the list of control commands: the arrows move the mark, no further
/// than to the ends, Esc closes the list, and Enter closes it and gives the command
/// marked. The first sends modem status for the channel in focus, the second closes that
/// channel, the third closes the multiplexer down. Without a channel in focus the first
/// two only say so. Every other key does nothing.
pub proof fn law_keys_of_the_control_list(s: AppView, selected: usize, code: KeyCode, ctrl: bool)
    requires
        s.dialog == Some(DialogView::Control { selected }),
        selected < 3,
    ensures
        ({
            let quiet = AppView { notice: None, ..s };
            let gone = AppView { dialog: None, ..quiet };
            let (after, cmd) = pressed(s, KeyEvent { code, ctrl });
            let target = s.slots[s.focus as int].dlci;
            match code {
                KeyCode::Up => {
                    let to = if selected == 0 {
                        0
                    } else {
                        selected - 1
                    };
                    &&& cmd == CommandView::Nothing
                    &&& after == (AppView {
                        dialog: Some(DialogView::Control { selected: to as usize }),
                        ..quiet
                    })
                },
                KeyCode::Down => {
                    let to = if selected == 2 {
                        2
                    } else {
                        selected + 1
                    };
                    &&& cmd == CommandView::Nothing
                    &&& after == (AppView {
                        dialog: Some(DialogView::Control { selected: to as usize }),
                        ..quiet
                    })
                },
                KeyCode::Enter => if selected == 2 {
                    cmd == CommandView::CloseMux && after == gone
                } else {
                    match target {
                        None => {
                            &&& cmd == CommandView::Nothing
                            &&& after == (AppView { notice: Some("当前槽位未绑定通道"@), ..gone })
                        },
                        Some(dlci) => {
                            &&& after == gone
                            &&& selected == 0 ==> cmd == (CommandView::SendMsc { dlci })
                            &&& selected == 1 ==> cmd == (CommandView::CloseDlc { dlci })
                        },
                    }
                },
                KeyCode::Esc => cmd == CommandView::Nothing && after == gone,
                _ => cmd == CommandView::Nothing && after == quiet,
            }
        }),
{
    reveal(pressed);
}

} // verus!
