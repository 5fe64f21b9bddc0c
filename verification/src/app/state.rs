//! What the screen shows: channels, records, counters, dialogs.
use crate::app::input::{InputBox, InputView, LineEnding};
#[allow(unused_imports)]
use crate::app::record;
use crate::app::record::{Record, RecordView};
use crate::clock::Timestamp;
use crate::mux::frame::{copy_bytes, Frame, FrameView};
#[allow(unused_imports)]
use crate::mux::frame::FrameType;
use crate::mux::session::DlcState;
#[allow(unused_imports)]
use crate::text;
use crate::text::{push_decimal, push_text, trim_end};
use std::collections::VecDeque;
use vstd::prelude::*;
use vstd::string::*;

verus! {

/// How many channels are on the screen.
pub const SLOT_COUNT: usize = 2;

/// What can be set.
#[derive(Debug, Clone, Copy)]
pub struct AppConfig {
    /// How many records a channel keeps, and how many frames the raw view.
    pub max_records: usize,
    /// What is put behind text that is sent.
    pub line_ending: LineEnding,
    /// How long, in nanoseconds, data of one channel and direction is gathered
    /// into one record after its last byte; zero for not at all. Some modules
    /// send every byte in a frame of its own.
    pub merge_window: u64,
}

impl Default for AppConfig {
    fn default() -> (c: Self)
        ensures
            c.max_records == 5000,
            c.line_ending == LineEnding::Cr,
            c.merge_window == 5_000_000,
    {
        AppConfig { max_records: 5000, line_ending: LineEnding::Cr, merge_window: 5_000_000 }
    }
}

/// Where the whole line stands.
#[derive(Debug, Clone, Copy, PartialEq, Eq, Structural)]
pub enum LinkState {
    /// No multiplexer.
    Down,
    /// The AT dialogue is on.
    Negotiating,
    /// The multiplexer is up.
    Up,
}

/// Counters of traffic.
#[derive(Debug, Clone, Copy)]
pub struct Stats {
    pub rx_frames: u64,
    pub tx_frames: u64,
    pub fcs_errors: u64,
    pub garbage_bytes: u64,
}

/// What [`Stats`] holds.
#[verifier::ext_equal]
pub struct StatsView {
    pub rx_frames: nat,
    pub tx_frames: nat,
    pub fcs_errors: nat,
    pub garbage_bytes: nat,
}

impl View for Stats {
    type V = StatsView;

    open spec fn view(&self) -> StatsView {
        StatsView {
            rx_frames: self.rx_frames as nat,
            tx_frames: self.tx_frames as nat,
            fcs_errors: self.fcs_errors as nat,
            garbage_bytes: self.garbage_bytes as nat,
        }
    }
}

impl Default for Stats {
    fn default() -> (s: Self)
        ensures
            s@ == (StatsView { rx_frames: 0, tx_frames: 0, fcs_errors: 0, garbage_bytes: 0 }),
    {
        Stats { rx_frames: 0, tx_frames: 0, fcs_errors: 0, garbage_bytes: 0 }
    }
}

/// One channel on the screen.
#[derive(Debug)]
pub struct ChannelSlot {
    pub dlci: Option<u8>,
    pub state: DlcState,
    pub records: VecDeque<Record>,
    /// Whether the view stays at the latest record.
    pub follow: bool,
    /// How many records the view is above the latest one.
    pub scroll: usize,
}

/// What a [`ChannelSlot`] holds.
#[verifier::ext_equal]
pub struct SlotView {
    pub dlci: Option<u8>,
    pub state: DlcState,
    pub records: Seq<RecordView>,
    pub follow: bool,
    pub scroll: usize,
}

/// What a list of records holds.
pub open spec fn record_views(records: Seq<Record>) -> Seq<RecordView> {
    records.map_values(|r: Record| r@)
}

impl View for ChannelSlot {
    type V = SlotView;

    open spec fn view(&self) -> SlotView {
        SlotView {
            dlci: self.dlci,
            state: self.state,
            records: record_views(self.records@),
            follow: self.follow,
            scroll: self.scroll,
        }
    }
}

impl SlotView {
    /// A slot without history, bound or not.
    pub open spec fn fresh(dlci: Option<u8>) -> SlotView {
        SlotView {
            dlci,
            state: DlcState::Closed,
            records: Seq::empty(),
            follow: true,
            scroll: 0,
        }
    }

    /// The slot with one more record, of which it keeps the latest `cap`.
    pub open spec fn pushed(self, rec: RecordView, cap: nat) -> SlotView {
        SlotView {
            records: latest(self.records.push(rec), cap),
            scroll: if self.follow {
                0
            } else {
                self.scroll
            },
            ..self
        }
    }

    /// The slot scrolled by `delta` records; negative goes to earlier ones. It
    /// follows the latest record again once it is back there.
    pub open spec fn scrolled(self, delta: int) -> SlotView {
        let wanted = self.scroll - delta;
        let scroll = if wanted < 0 {
            0
        } else if wanted > self.records.len() {
            self.records.len() as int
        } else {
            wanted
        };
        SlotView { scroll: scroll as usize, follow: scroll == 0, ..self }
    }

    /// The slot back at the latest record.
    pub open spec fn followed(self) -> SlotView {
        SlotView { scroll: 0, follow: true, ..self }
    }

    /// The slot without its records.
    pub open spec fn cleared(self) -> SlotView {
        SlotView { records: Seq::empty(), ..self.followed() }
    }

    /// The records are within the limit, the view within the records, and it
    /// follows exactly when it is at the latest one.
    pub open spec fn wf(self, cap: nat) -> bool {
        &&& self.records.len() <= cap
        &&& self.scroll <= self.records.len()
        &&& self.follow <==> self.scroll == 0
    }
}

/// The last `cap` things of a list.
pub open spec fn latest<T>(s: Seq<T>, cap: nat) -> Seq<T> {
    if s.len() <= cap {
        s
    } else {
        s.skip(s.len() - cap)
    }
}

impl Default for ChannelSlot {
    fn default() -> (s: Self)
        ensures
            s@ == SlotView::fresh(None),
    {
        ChannelSlot::bound_to(None)
    }
}

impl ChannelSlot {
    /// A slot without history, bound or not.
    fn bound_to(dlci: Option<u8>) -> (s: ChannelSlot)
        ensures
            s@ == SlotView::fresh(dlci),
    {
        let s = ChannelSlot {
            dlci,
            state: DlcState::Closed,
            records: VecDeque::new(),
            follow: true,
            scroll: 0,
        };
        assert(s@ =~= SlotView::fresh(dlci));
        s
    }
}

/// One line of the raw view.
#[derive(Debug)]
pub struct RawEntry {
    pub ts: Timestamp,
    /// Whether it was sent from here.
    pub outgoing: bool,
    /// What it is, as in `DLCI 1 UIH P/F=0 len=3`.
    pub summary: String,
    /// Whether it is a good frame.
    pub ok: bool,
    pub bytes: Vec<u8>,
}

/// What a [`RawEntry`] holds.
#[verifier::ext_equal]
pub struct RawView {
    pub ts: Timestamp,
    pub outgoing: bool,
    pub summary: Seq<char>,
    pub ok: bool,
    pub bytes: Seq<u8>,
}

impl View for RawEntry {
    type V = RawView;

    open spec fn view(&self) -> RawView {
        RawView {
            ts: self.ts,
            outgoing: self.outgoing,
            summary: self.summary@,
            ok: self.ok,
            bytes: self.bytes@,
        }
    }
}

impl Clone for RawEntry {
    fn clone(&self) -> (e: Self)
        ensures
            e@ == self@,
    {
        RawEntry {
            ts: self.ts,
            outgoing: self.outgoing,
            summary: self.summary.clone(),
            ok: self.ok,
            bytes: copy_bytes(&self.bytes),
        }
    }
}

/// What a list of raw entries holds.
pub open spec fn raw_views(entries: Seq<RawEntry>) -> Seq<RawView> {
    entries.map_values(|e: RawEntry| e@)
}

/// The summary of a frame.
pub open spec fn frame_summary(f: FrameView) -> Seq<char> {
    "DLCI "@ + text::decimal(f.dlci as nat) + " "@ + f.ftype.text() + (if f.pf {
        " P/F=1 len="@
    } else {
        " P/F=0 len="@
    }) + text::decimal(f.info.len())
}

impl RawView {
    /// The entry of a frame: its summary and its bytes on the wire.
    pub open spec fn of_frame(ts: Timestamp, f: FrameView, outgoing: bool) -> RawView {
        RawView { ts, outgoing, summary: frame_summary(f), ok: true, bytes: f.wire() }
    }

    /// The entry of bytes that are no frame.
    pub open spec fn of_bad(ts: Timestamp, summary: Seq<char>, bytes: Seq<u8>) -> RawView {
        RawView { ts, outgoing: false, summary, ok: false, bytes }
    }

    /// The line: time, direction, summary, and a mark on what is no frame.
    pub open spec fn line(self) -> Seq<char> {
        text::trimmed_end(
            self.ts.time() + (if self.outgoing {
                " TX "@
            } else {
                " RX "@
            }) + self.summary + (if self.ok {
                " "@
            } else {
                " [FCS 失败]"@
            }),
        )
    }
}

impl RawEntry {
    /// The entry of a frame at a given time.
    pub fn frame_at(ts: Timestamp, f: &Frame, outgoing: bool) -> (e: RawEntry)
        ensures
            e@ == RawView::of_frame(ts, f@, outgoing),
    {
        let mut summary = String::new();
        push_text(&mut summary, "DLCI ");
        push_decimal(&mut summary, f.dlci as u64);
        push_text(&mut summary, " ");
        push_text(&mut summary, f.ftype.name());
        if f.pf {
            push_text(&mut summary, " P/F=1 len=");
        } else {
            push_text(&mut summary, " P/F=0 len=");
        }
        push_decimal(&mut summary, f.info.len() as u64);
        assert(summary@ =~= frame_summary(f@));
        RawEntry { ts, outgoing, summary, ok: true, bytes: f.encode() }
    }

    /// The entry of bytes that are no frame, at a given time.
    pub fn bad_at(ts: Timestamp, summary: &str, bytes: Vec<u8>) -> (e: RawEntry)
        ensures
            e@ == RawView::of_bad(ts, summary@, bytes@),
    {
        RawEntry { ts, outgoing: false, summary: summary.to_string(), ok: false, bytes }
    }

    /// The entry of a frame, now.
    pub fn from_frame(f: &Frame, outgoing: bool) -> (e: RawEntry)
        ensures
            e@ == RawView::of_frame(e.ts, f@, outgoing),
    {
        RawEntry::frame_at(Timestamp::now(), f, outgoing)
    }

    /// The entry of bytes that are no frame, now.
    pub fn bad(summary: &str, bytes: Vec<u8>) -> (e: RawEntry)
        ensures
            e@ == RawView::of_bad(e.ts, summary@, bytes@),
    {
        RawEntry::bad_at(Timestamp::now(), summary, bytes)
    }

    /// The line in the raw view.
    pub fn line(&self) -> (s: String)
        ensures
            s@ == self@.line(),
    {
        let mut s = self.ts.time_text();
        if self.outgoing {
            push_text(&mut s, " TX ");
        } else {
            push_text(&mut s, " RX ");
        }
        push_text(&mut s, self.summary.as_str());
        if self.ok {
            push_text(&mut s, " ");
        } else {
            push_text(&mut s, " [FCS 失败]");
        }
        trim_end(s.as_str())
    }
}

/// The dialog that is open.
#[derive(Debug, PartialEq, Eq)]
pub enum Dialog {
    /// Which channel to bind to the slot; `input` is the number typed so far.
    Bind { slot: usize, input: String },
    /// The control commands; `selected` is the one marked.
    Control { selected: usize },
    /// The keys.
    Help,
}

/// What a [`Dialog`] holds.
#[verifier::ext_equal]
pub enum DialogView {
    Bind { slot: usize, input: Seq<char> },
    Control { selected: usize },
    Help,
}

impl View for Dialog {
    type V = DialogView;

    open spec fn view(&self) -> DialogView {
        match self {
            Dialog::Bind { slot, input } => DialogView::Bind { slot: *slot, input: input@ },
            Dialog::Control { selected } => DialogView::Control { selected: *selected },
            Dialog::Help => DialogView::Help,
        }
    }
}

impl Clone for Dialog {
    fn clone(&self) -> (d: Self)
        ensures
            d@ == self@,
    {
        match self {
            Dialog::Bind { slot, input } => Dialog::Bind { slot: *slot, input: input.clone() },
            Dialog::Control { selected } => Dialog::Control { selected: *selected },
            Dialog::Help => Dialog::Help,
        }
    }
}

/// What the dialog, if one is open, holds.
pub open spec fn dialog_view(d: Option<Dialog>) -> Option<DialogView> {
    match d {
        Some(dialog) => Some(dialog@),
        None => None,
    }
}

/// The keys and what they do.
pub const HELP_KEYS: [(&'static str, &'static str); 13] = [
    ("F1 / F2 / Tab", "选择发送目标通道"),
    ("Enter", "发送"),
    ("↑ / ↓", "翻输入历史"),
    ("Ctrl+T", "切换 ASCII / HEX 输入模式"),
    ("Ctrl+O", "绑定 DLCI 到当前槽位并建链"),
    ("Ctrl+K", "控制通道命令 (MSC / DISC / CLD)"),
    ("Ctrl+R", "原始帧调试视图"),
    ("PgUp / PgDn", "滚动当前通道"),
    ("End", "回到跟随最新"),
    ("Ctrl+L", "清空当前通道"),
    ("Ctrl+S", "开始 / 停止记录日志"),
    ("Ctrl+G", "显示 / 关闭本帮助"),
    ("Ctrl+Q", "退出"),
];

/// The control commands.
pub const CONTROL_ITEMS: [&'static str; 3] = [
    "发送 MSC（当前通道）",
    "关闭当前通道（DISC）",
    "关闭整个复用（CLD）",
];

/// Everything that the screen shows.
pub struct AppState {
    pub cfg: AppConfig,
    pub slots: Vec<ChannelSlot>,
    /// The slot that keys and input go to.
    pub focus: usize,
    pub input: InputBox,
    pub link: LinkState,
    pub stats: Stats,
    /// What the port is, for the status line.
    pub port_desc: String,
    /// How many records belonged to no slot.
    pub unrouted: u64,
    /// The latest frames, for the raw view.
    pub raw_log: VecDeque<RawEntry>,
    /// Whether the raw view is shown.
    pub show_raw: bool,
    /// The dialog that is open.
    pub dialog: Option<Dialog>,
    /// A message at the bottom until the next key.
    pub notice: Option<String>,
}

/// What an [`AppState`] holds.
#[verifier::ext_equal]
pub struct AppView {
    pub cfg: AppConfig,
    pub slots: Seq<SlotView>,
    pub focus: usize,
    pub input: InputView,
    pub link: LinkState,
    pub stats: StatsView,
    pub port_desc: Seq<char>,
    pub unrouted: nat,
    pub raw_log: Seq<RawView>,
    pub show_raw: bool,
    pub dialog: Option<DialogView>,
    pub notice: Option<Seq<char>>,
}

/// What a list of slots holds.
pub open spec fn slot_views(slots: Seq<ChannelSlot>) -> Seq<SlotView> {
    slots.map_values(|s: ChannelSlot| s@)
}

impl View for AppState {
    type V = AppView;

    open spec fn view(&self) -> AppView {
        AppView {
            cfg: self.cfg,
            slots: slot_views(self.slots@),
            focus: self.focus,
            input: self.input@,
            link: self.link,
            stats: self.stats@,
            port_desc: self.port_desc@,
            unrouted: self.unrouted as nat,
            raw_log: raw_views(self.raw_log@),
            show_raw: self.show_raw,
            dialog: dialog_view(self.dialog),
            notice: record::text_view(self.notice),
        }
    }
}

/// The first slot from `from` on that is bound to `dlci`, or free for `None`.
pub open spec fn find_slot(slots: Seq<SlotView>, dlci: Option<u8>, from: nat) -> Option<nat>
    decreases slots.len() - from,
{
    if from >= slots.len() {
        None
    } else if slots[from as int].dlci == dlci {
        Some(from)
    } else {
        find_slot(slots, dlci, from + 1)
    }
}

impl AppView {
    /// Two free slots and nothing else.
    pub open spec fn initial(cfg: AppConfig) -> AppView {
        AppView {
            cfg,
            slots: seq![SlotView::fresh(None), SlotView::fresh(None)],
            focus: 0,
            input: InputView::initial(),
            link: LinkState::Down,
            stats: StatsView { rx_frames: 0, tx_frames: 0, fcs_errors: 0, garbage_bytes: 0 },
            port_desc: Seq::empty(),
            unrouted: 0,
            raw_log: Seq::empty(),
            show_raw: false,
            dialog: None,
            notice: None,
        }
    }

    /// The slot that is bound to a channel.
    pub open spec fn slot_of(self, dlci: u8) -> Option<nat> {
        find_slot(self.slots, Some(dlci), 0)
    }

    /// The state with one slot replaced.
    pub open spec fn with_slot(self, i: int, slot: SlotView) -> AppView {
        AppView { slots: self.slots.update(i, slot), ..self }
    }

    /// The slot that a channel gets: its own, else the first free one.
    pub open spec fn slot_for(self, dlci: u8) -> Option<nat> {
        match self.slot_of(dlci) {
            Some(i) => Some(i),
            None => find_slot(self.slots, None, 0),
        }
    }

    /// The state after a channel was bound, where there was room.
    pub open spec fn bound(self, dlci: u8) -> AppView {
        match (self.slot_of(dlci), self.slot_for(dlci)) {
            (None, Some(i)) => self.with_slot(i as int, SlotView::fresh(Some(dlci))),
            _ => self,
        }
    }

    /// The slot that a channel gets where a certain one is asked for: the one it
    /// has, else the one asked for if that is free, else the first free one.
    pub open spec fn slot_wanted(self, dlci: u8, slot: int) -> Option<nat> {
        if self.slot_of(dlci) is None && self.slots[slot].dlci is None {
            Some(slot as nat)
        } else {
            self.slot_for(dlci)
        }
    }

    /// The state after a channel was bound, to the slot asked for if that is free.
    pub open spec fn bound_in(self, dlci: u8, slot: int) -> AppView {
        if self.slot_of(dlci) is None && self.slots[slot].dlci is None {
            self.with_slot(slot, SlotView::fresh(Some(dlci)))
        } else {
            self.bound(dlci)
        }
    }

    /// The state after a channel was let go.
    pub open spec fn unbound(self, dlci: u8) -> AppView {
        match self.slot_of(dlci) {
            Some(i) => self.with_slot(i as int, SlotView::fresh(None)),
            None => self,
        }
    }

    /// The channel of the slot in focus.
    pub open spec fn target(self) -> Option<u8> {
        self.slots[self.focus as int].dlci
    }

    /// The state with another link state of one channel.
    pub open spec fn with_dlc_state(self, dlci: u8, state: DlcState) -> AppView {
        match self.slot_of(dlci) {
            Some(i) => self.with_slot(i as int, SlotView { state, ..self.slots[i as int] }),
            None => self,
        }
    }

    /// The state after a record came: in the slot of its channel, or only
    /// counted where no slot has the channel.
    pub open spec fn with_record(self, rec: RecordView) -> AppView {
        match self.slot_of(rec.dlci) {
            Some(i) => self.with_slot(
                i as int,
                self.slots[i as int].pushed(rec, self.cfg.max_records as nat),
            ),
            None => AppView { unrouted: self.unrouted + 1, ..self },
        }
    }

    /// The state after an entry of the raw view came.
    pub open spec fn with_raw(self, entry: RawView) -> AppView {
        AppView {
            raw_log: latest(self.raw_log.push(entry), self.cfg.max_records as nat),
            ..self
        }
    }

    /// The state with the slot in focus replaced.
    pub open spec fn with_focused(self, slot: SlotView) -> AppView {
        self.with_slot(self.focus as int, slot)
    }

    /// The slot in focus.
    pub open spec fn focused(self) -> SlotView {
        self.slots[self.focus as int]
    }

    /// The focus is on a slot.
    pub open spec fn in_focus(self) -> bool {
        self.focus < self.slots.len()
    }

    /// Everything is in order: two slots, no channel in both, each in order; the
    /// focus on one of them; the raw view within its limit; the place in the
    /// input history exists; a dialog speaks of a slot and a command that exist.
    pub open spec fn wf(self) -> bool {
        &&& self.slots.len() == SLOT_COUNT
        &&& self.focus < SLOT_COUNT
        &&& self.slots[0].dlci is Some ==> self.slots[0].dlci != self.slots[1].dlci
        &&& self.slots[0].wf(self.cfg.max_records as nat)
        &&& self.slots[1].wf(self.cfg.max_records as nat)
        &&& self.raw_log.len() <= self.cfg.max_records
        &&& self.input.wf()
        &&& match self.dialog {
            Some(DialogView::Bind { slot, input }) => slot < SLOT_COUNT && input.len() <= 2,
            Some(DialogView::Control { selected }) => selected < 3,
            _ => true,
        }
    }
}

/// Drops the earliest things until no more than `cap` are left.
fn trim_records(records: &mut VecDeque<Record>, cap: usize)
    ensures
        record_views(final(records)@) == latest(record_views(old(records)@), cap as nat),
{
    let ghost all = records@;
    while records.len() > cap
        invariant
            records@.len() <= all.len(),
            records@ == all.skip(all.len() - records@.len()),
            all.len() <= cap ==> records@.len() == all.len(),
            all.len() > cap ==> records@.len() >= cap,
        decreases records@.len(),
    {
        let _ = records.pop_front();
        assert(records@ =~= all.skip(all.len() - records@.len()));
    }
    assert(record_views(records@) =~= latest(record_views(all), cap as nat));
}

impl AppState {
    /// Two free slots and nothing else.
    pub fn new(cfg: AppConfig) -> (s: AppState)
        ensures
            s@ == AppView::initial(cfg),
    {
        let mut slots: Vec<ChannelSlot> = Vec::new();
        slots.push(ChannelSlot::default());
        slots.push(ChannelSlot::default());
        let s = AppState {
            cfg,
            slots,
            focus: 0,
            input: InputBox::default(),
            link: LinkState::Down,
            stats: Stats::default(),
            port_desc: String::new(),
            unrouted: 0,
            raw_log: VecDeque::new(),
            show_raw: false,
            dialog: None,
            notice: None,
        };
        assert(s@ =~= AppView::initial(cfg));
        s
    }

    /// The first slot that is bound to `dlci`, or free for `None`.
    fn find(&self, dlci: Option<u8>) -> (r: Option<usize>)
        ensures
            match r {
                Some(i) => find_slot(self@.slots, dlci, 0) == Some(i as nat) && i
                    < self.slots@.len(),
                None => find_slot(self@.slots, dlci, 0) is None,
            },
    {
        for i in 0..self.slots.len()
            invariant
                find_slot(self@.slots, dlci, 0) == find_slot(self@.slots, dlci, i as nat),
        {
            if self.slots[i].dlci == dlci {
                return Some(i);
            }
        }
        None
    }

    /// Binds a channel to a slot and says which: the one it has, else the first
    /// free one, if there is one.
    pub fn bind(&mut self, dlci: u8) -> (r: Option<usize>)
        ensures
            final(self)@ == old(self)@.bound(dlci),
            match r {
                Some(i) => old(self)@.slot_for(dlci) == Some(i as nat),
                None => old(self)@.slot_for(dlci) is None,
            },
    {
        if let Some(i) = self.slot_of(dlci) {
            return Some(i);
        }
        match self.find(None) {
            Some(i) => {
                self.slots[i] = ChannelSlot::bound_to(Some(dlci));
                assert(self@ =~= old(self)@.bound(dlci));
                Some(i)
            },
            None => None,
        }
    }

    /// Binds a channel, to the slot asked for if that is free, and says which slot
    /// it has now. A channel that already has a slot keeps it.
    pub fn bind_in(&mut self, dlci: u8, slot: usize) -> (r: Option<usize>)
        requires
            slot < old(self)@.slots.len(),
        ensures
            final(self)@ == old(self)@.bound_in(dlci, slot as int),
            match r {
                Some(i) => old(self)@.slot_wanted(dlci, slot as int) == Some(i as nat),
                None => old(self)@.slot_wanted(dlci, slot as int) is None,
            },
    {
        if self.slot_of(dlci).is_none() && self.slots[slot].dlci.is_none() {
            self.slots[slot] = ChannelSlot::bound_to(Some(dlci));
            assert(self@ =~= old(self)@.bound_in(dlci, slot as int));
            return Some(slot);
        }
        self.bind(dlci)
    }

    /// Lets a channel go and empties its slot.
    pub fn unbind(&mut self, dlci: u8)
        ensures
            final(self)@ == old(self)@.unbound(dlci),
            final(self)@.slots.len() == old(self)@.slots.len(),
    {
        if let Some(i) = self.slot_of(dlci) {
            self.slots[i] = ChannelSlot::default();
            assert(self@ =~= old(self)@.unbound(dlci));
        }
    }

    /// The slot that is bound to a channel.
    pub fn slot_of(&self, dlci: u8) -> (r: Option<usize>)
        ensures
            match r {
                Some(i) => self@.slot_of(dlci) == Some(i as nat) && i < self.slots@.len(),
                None => self@.slot_of(dlci) is None,
            },
    {
        self.find(Some(dlci))
    }

    /// The channel of the slot in focus.
    pub fn target_dlci(&self) -> (r: Option<u8>)
        requires
            self@.in_focus(),
        ensures
            r == self@.target(),
    {
        self.slots[self.focus].dlci
    }

    /// Moves the focus on to the next slot, and from the last to the first.
    pub fn focus_next(&mut self)
        requires
            old(self)@.slots.len() > 0,
            old(self)@.focus < usize::MAX,
        ensures
            final(self)@ == (AppView {
                focus: ((old(self)@.focus + 1) % (old(self)@.slots.len() as int)) as usize,
                ..old(self)@
            }),
    {
        self.focus = (self.focus + 1) % self.slots.len();
    }

    /// Moves the focus to a slot, if there is one of that number.
    pub fn set_focus(&mut self, i: usize)
        ensures
            final(self)@ == (if i < old(self)@.slots.len() {
                AppView { focus: i, ..old(self)@ }
            } else {
                old(self)@
            }),
    {
        if i < self.slots.len() {
            self.focus = i;
        }
    }

    /// Notes the link state of a channel.
    pub fn set_dlc_state(&mut self, dlci: u8, state: DlcState)
        ensures
            final(self)@ == old(self)@.with_dlc_state(dlci, state),
    {
        if let Some(i) = self.slot_of(dlci) {
            self.slots[i].state = state;
            assert(self@ =~= old(self)@.with_dlc_state(dlci, state));
        }
    }

    /// Puts a record into the slot of its channel.
    pub fn push_record(&mut self, rec: Record)
        requires
            old(self)@.with_record(rec@).unrouted <= u64::MAX,
        ensures
            final(self)@ == old(self)@.with_record(rec@),
    {
        match self.slot_of(rec.dlci) {
            None => {
                self.unrouted = self.unrouted + 1;
            },
            Some(i) => {
                let cap: usize = self.cfg.max_records;
                let ghost before = self.slots@[i as int];
                let ghost rec_view = rec@;
                let slot = &mut self.slots[i];
                slot.records.push_back(rec);
                assert(record_views(slot.records@) =~= record_views(before.records@).push(rec_view));
                trim_records(&mut slot.records, cap);
                if slot.follow {
                    slot.scroll = 0;
                }
                assert(self@ =~= old(self)@.with_record(rec_view));
            },
        }
    }

    /// Puts an entry into the raw view, which drops the earliest ones beyond its
    /// limit.
    pub fn push_raw(&mut self, entry: RawEntry)
        ensures
            final(self)@ == old(self)@.with_raw(entry@),
    {
        let cap: usize = self.cfg.max_records;
        self.raw_log.push_back(entry);
        let ghost all = self.raw_log@;
        assert(raw_views(all) =~= raw_views(old(self).raw_log@).push(entry@));
        while self.raw_log.len() > cap
            invariant
                *self == (AppState { raw_log: self.raw_log, ..*old(self) }),
                self.raw_log@.len() <= all.len(),
                self.raw_log@ == all.skip(all.len() - self.raw_log@.len()),
                all.len() <= cap ==> self.raw_log@.len() == all.len(),
                all.len() > cap ==> self.raw_log@.len() >= cap,
            decreases self.raw_log@.len(),
        {
            let _ = self.raw_log.pop_front();
            assert(self.raw_log@ =~= all.skip(all.len() - self.raw_log@.len()));
        }
        assert(raw_views(self.raw_log@) =~= latest(raw_views(all), cap as nat));
    }

    /// Empties the slot in focus.
    pub fn clear_focused(&mut self)
        requires
            old(self)@.in_focus(),
        ensures
            final(self)@ == old(self)@.with_focused(old(self)@.focused().cleared()),
    {
        let i: usize = self.focus;
        let slot = &mut self.slots[i];
        slot.records.clear();
        slot.scroll = 0;
        slot.follow = true;
        assert(record_views(self.slots@[i as int].records@) =~= Seq::empty());
        assert(self@ =~= old(self)@.with_focused(old(self)@.focused().cleared()));
    }

    /// Scrolls the slot in focus; negative goes to earlier records.
    pub fn scroll_focused(&mut self, delta: isize)
        requires
            old(self)@.in_focus(),
        ensures
            final(self)@ == old(self)@.with_focused(old(self)@.focused().scrolled(delta as int)),
    {
        let i: usize = self.focus;
        let slot = &mut self.slots[i];
        let max: usize = slot.records.len();
        let wanted: i128 = slot.scroll as i128 - delta as i128;
        let new: usize = if wanted < 0 {
            0
        } else if wanted > max as i128 {
            max
        } else {
            wanted as usize
        };
        slot.scroll = new;
        slot.follow = new == 0;
        assert(self@ =~= old(self)@.with_focused(old(self)@.focused().scrolled(delta as int)));
    }

    /// Goes back to following the latest record.
    pub fn follow_focused(&mut self)
        requires
            old(self)@.in_focus(),
        ensures
            final(self)@ == old(self)@.with_focused(old(self)@.focused().followed()),
    {
        let i: usize = self.focus;
        let slot = &mut self.slots[i];
        slot.scroll = 0;
        slot.follow = true;
        assert(self@ =~= old(self)@.with_focused(old(self)@.focused().followed()));
    }
}

/// The lookup in two slots.
proof fn lemma_find_in_two(s: AppView, dlci: Option<u8>)
    requires
        s.slots.len() == 2,
    ensures
        find_slot(s.slots, dlci, 0) == (if s.slots[0].dlci == dlci {
            Some(0nat)
        } else if s.slots[1].dlci == dlci {
            Some(1nat)
        } else {
            None
        }),
{
    reveal_with_fuel(find_slot, 3);
}

/// The state stays in order whatever is done to it.
pub proof fn law_state_stays_wf(
    s: AppView,
    dlci: u8,
    state: DlcState,
    rec: RecordView,
    entry: RawView,
    delta: int,
    i: usize,
)
    requires
        s.wf(),
    ensures
        AppView::initial(s.cfg).wf(),
        s.bound(dlci).wf(),
        i < SLOT_COUNT ==> s.bound_in(dlci, i as int).wf(),
        s.unbound(dlci).wf(),
        s.with_dlc_state(dlci, state).wf(),
        s.with_record(rec).wf(),
        s.with_raw(entry).wf(),
        s.with_focused(s.focused().cleared()).wf(),
        s.with_focused(s.focused().scrolled(delta)).wf(),
        s.with_focused(s.focused().followed()).wf(),
        i < SLOT_COUNT ==> (AppView { focus: i, ..s }).wf(),
{
    lemma_find_in_two(s, Some(dlci));
    lemma_find_in_two(s, None);
    lemma_find_in_two(s, Some(rec.dlci));
}

/// A channel that was bound is found where it was put, and binding it again
/// changes nothing. It is refused exactly when both slots belong to other
/// channels. Once let go it is found nowhere, and there is room again. A free slot
/// that is asked for is the one it gets.
pub proof fn law_binding(s: AppView, dlci: u8, slot: int)
    requires
        s.wf(),
        0 <= slot < SLOT_COUNT,
    ensures
        s.slot_for(dlci) matches Some(i) ==> {
            &&& s.bound(dlci).slot_of(dlci) == Some(i)
            &&& s.bound(dlci).slot_for(dlci) == Some(i)
            &&& s.bound(dlci).bound(dlci) == s.bound(dlci)
        },
        s.slot_for(dlci) is None <==> forall|i: int|
            0 <= i < SLOT_COUNT ==> (#[trigger] s.slots[i]).dlci is Some && s.slots[i].dlci
                != Some(dlci),
        s.unbound(dlci).slot_of(dlci) is None,
        s.slot_of(dlci) is Some ==> s.unbound(dlci).slot_for(dlci) is Some,
        s.slot_wanted(dlci, slot) matches Some(i) ==> s.bound_in(dlci, slot).slot_of(dlci) == Some(
            i,
        ),
        s.slot_of(dlci) is None && s.slots[slot].dlci is None ==> s.slot_wanted(dlci, slot) == Some(
            slot as nat,
        ),
{
    lemma_find_in_two(s, Some(dlci));
    lemma_find_in_two(s, None);
    lemma_find_in_two(s.bound_in(dlci, slot), Some(dlci));
    lemma_find_in_two(s.bound(dlci), Some(dlci));
    lemma_find_in_two(s.bound(dlci), None);
    lemma_find_in_two(s.unbound(dlci), Some(dlci));
    lemma_find_in_two(s.unbound(dlci), None);
    assert(s.slots[0].dlci is Some || s.slots[0].dlci is None);
    assert(s.slots[1].dlci is Some || s.slots[1].dlci is None);
}

/// Once the slot asked for has been cleared of another channel, a channel always
/// gets a slot: the one it had, else the one asked for.
pub proof fn law_cleared_slot_is_given(s: AppView, dlci: u8, slot: int, state: DlcState)
    requires
        s.wf(),
        0 <= slot < SLOT_COUNT,
    ensures
        ({
            let freed = match s.slots[slot].dlci {
                Some(existing) if existing != dlci => s.unbound(existing),
                _ => s,
            };
            let after = freed.bound_in(dlci, slot).with_dlc_state(dlci, state);
            let i = match s.slot_of(dlci) {
                Some(had) => had as int,
                None => slot,
            };
            &&& freed.slot_wanted(dlci, slot) == Some(i as nat)
            &&& after.slots.len() == SLOT_COUNT
            &&& 0 <= i < SLOT_COUNT
            &&& after.slots[i].dlci == Some(dlci)
            &&& after.slots[i].state == state
            &&& after.slots[slot].dlci is None || after.slots[slot].dlci == Some(dlci)
        }),
{
    let freed = match s.slots[slot].dlci {
        Some(existing) if existing != dlci => s.unbound(existing),
        _ => s,
    };
    lemma_find_in_two(s, Some(dlci));
    if let Some(existing) = s.slots[slot].dlci {
        lemma_find_in_two(s, Some(existing));
    }
    lemma_find_in_two(freed, Some(dlci));
    lemma_find_in_two(freed, None);
    lemma_find_in_two(freed.bound_in(dlci, slot), Some(dlci));
}

/// A record touches no slot but that of its channel; where there is none it is
/// counted and otherwise changes nothing.
pub proof fn law_records_stay_apart(s: AppView, rec: RecordView, i: int)
    requires
        s.wf(),
        0 <= i < SLOT_COUNT,
        s.slots[i].dlci != Some(rec.dlci),
    ensures
        s.with_record(rec).slots[i] == s.slots[i],
        s.with_record(rec).unrouted == (if s.slot_of(rec.dlci) is None {
            s.unrouted + 1
        } else {
            s.unrouted
        }),
{
    lemma_find_in_two(s, Some(rec.dlci));
}

/// A slot after a list of records.
pub open spec fn after_records(slot: SlotView, recs: Seq<RecordView>, cap: nat) -> SlotView
    decreases recs.len(),
{
    if recs.len() == 0 {
        slot
    } else {
        after_records(slot, recs.drop_last(), cap).pushed(recs.last(), cap)
    }
}

/// However many records come, a slot keeps the latest ones up to its limit, in
/// the order in which they came.
pub proof fn law_slot_keeps_the_latest(slot: SlotView, recs: Seq<RecordView>, cap: nat)
    requires
        slot.records.len() <= cap,
    ensures
        after_records(slot, recs, cap).records == latest(slot.records + recs, cap),
    decreases recs.len(),
{
    if recs.len() == 0 {
        assert(slot.records + recs =~= slot.records);
    } else {
        let less = recs.drop_last();
        law_slot_keeps_the_latest(slot, less, cap);
        let before = slot.records + less;
        assert(before.push(recs.last()) =~= slot.records + recs);
        assert(latest(latest(before, cap).push(recs.last()), cap) =~= latest(
            before.push(recs.last()),
            cap,
        ));
    }
}

/// Whether a list is another with one thing more at its end, or the last `cap` of that.
pub open spec fn grew<T>(before: Seq<T>, after: Seq<T>, more: T, cap: nat) -> bool {
    &&& after.len() == (if before.len() + 1 <= cap {
        before.len() + 1
    } else {
        cap
    })
    &&& after.len() > 0 ==> after[after.len() - 1] == more
    &&& forall|k: int|
        0 <= k < after.len() - 1 ==> #[trigger] after[k] == before[before.len() + 1 - after.len()
            + k]
}

/// A record is shown in the slot of its channel, behind those that are there, of which no
/// more than the limit are kept. A view that follows is then at the latest record, and one
/// that was scrolled stays where it is. Nothing else changes. A record of a channel that
/// is in no slot is counted, and that is all.
pub proof fn law_record_is_shown_in_its_slot(s: AppView, rec: RecordView, i: int)
    requires
        s.wf(),
        0 <= i < 2,
    ensures
        ({
            let t = s.with_record(rec);
            let a = s.slots[i];
            let b = t.slots[i];
            let shown = s.slots[0].dlci == Some(rec.dlci) || s.slots[1].dlci == Some(rec.dlci);
            &&& t == (AppView { slots: t.slots, unrouted: t.unrouted, ..s })
            &&& t.slots.len() == 2
            &&& t.unrouted == s.unrouted + (if shown {
                0int
            } else {
                1
            })
            &&& a.dlci != Some(rec.dlci) ==> b == a
            &&& a.dlci == Some(rec.dlci) ==> {
                &&& grew(a.records, b.records, rec, s.cfg.max_records as nat)
                &&& b.dlci == a.dlci && b.state == a.state && b.follow == a.follow
                &&& b.scroll == (if a.follow {
                    0
                } else {
                    a.scroll
                })
            }
        }),
{
    lemma_find_in_two(s, Some(rec.dlci));
}

/// The raw view takes every entry in at its end and keeps the latest up to the limit;
/// nothing else changes.
pub proof fn law_raw_view_takes_every_entry(s: AppView, entry: RawView)
    ensures
        s.raw_log.len() <= s.cfg.max_records ==> grew(
            s.raw_log,
            s.with_raw(entry).raw_log,
            entry,
            s.cfg.max_records as nat,
        ),
        s.with_raw(entry) == (AppView { raw_log: s.with_raw(entry).raw_log, ..s }),
{
}

/// Scrolling moves the view by so many records, no further than to the earliest and to
/// the latest; at the latest it follows. Going to the end and clearing do what they say.
/// None of them touches anything else.
pub proof fn law_scrolling_stays_within(a: SlotView, delta: int)
    requires
        a.records.len() <= usize::MAX,
    ensures
        ({
            let b = a.scrolled(delta);
            let n = a.records.len() as int;
            &&& 0 <= a.scroll - delta <= n ==> b.scroll == a.scroll - delta
            &&& a.scroll - delta < 0 ==> b.scroll == 0
            &&& a.scroll - delta > n ==> b.scroll == n
            &&& b.follow == (b.scroll == 0)
            &&& b.records == a.records && b.dlci == a.dlci && b.state == a.state
        }),
        ({
            let b = a.followed();
            &&& b.scroll == 0 && b.follow
            &&& b.records == a.records && b.dlci == a.dlci && b.state == a.state
        }),
        ({
            let b = a.cleared();
            &&& b.scroll == 0 && b.follow && b.records.len() == 0
            &&& b.dlci == a.dlci && b.state == a.state
        }),
{
}

/// What is done to the slot in focus is done to no other, and the focus stays.
pub proof fn law_focus_is_all_that_changes(s: AppView, slot: SlotView, i: int)
    requires
        s.wf(),
        0 <= i < 2,
    ensures
        s.with_focused(slot).slots.len() == 2,
        s.with_focused(slot).slots[i] == (if i == s.focus {
            slot
        } else {
            s.slots[i]
        }),
        s.with_focused(slot) == (AppView { slots: s.with_focused(slot).slots, ..s }),
        s.focused() == s.slots[s.focus as int],
        s.target() == s.slots[s.focus as int].dlci,
{
}

/// Where a channel is found: in the slot that is bound to it, and nowhere where none is.
pub proof fn law_channel_is_found_where_it_is(s: AppView, dlci: u8)
    requires
        s.wf(),
    ensures
        s.slot_of(dlci) == (if s.slots[0].dlci == Some(dlci) {
            Some(0nat)
        } else if s.slots[1].dlci == Some(dlci) {
            Some(1nat)
        } else {
            None
        }),
{
    lemma_find_in_two(s, Some(dlci));
}

/// What binding a channel does to each slot: the one that it gets is closed and empty and
/// at the latest record, every other stays, and so does one that it had already. A slot
/// that is asked for is taken where it is free and the channel has none; else the first
/// that is free.
pub proof fn law_binding_takes_one_slot(s: AppView, dlci: u8, slot: int, i: int)
    requires
        s.wf(),
        0 <= slot < 2,
        0 <= i < 2,
    ensures
        ({
            let had = s.slots[0].dlci == Some(dlci) || s.slots[1].dlci == Some(dlci);
            let free: int = if s.slots[0].dlci is None {
                0
            } else if s.slots[1].dlci is None {
                1
            } else {
                2
            };
            let wanted = if s.slots[slot].dlci is None {
                slot
            } else {
                free
            };
            let empty = SlotView {
                dlci: Some(dlci),
                state: DlcState::Closed,
                records: Seq::empty(),
                follow: true,
                scroll: 0,
            };
            &&& s.bound(dlci).slots[i] == (if !had && i == free {
                empty
            } else {
                s.slots[i]
            })
            &&& s.bound_in(dlci, slot).slots[i] == (if !had && i == wanted {
                empty
            } else {
                s.slots[i]
            })
            &&& s.bound(dlci) == (AppView { slots: s.bound(dlci).slots, ..s })
            &&& s.bound_in(dlci, slot) == (AppView { slots: s.bound_in(dlci, slot).slots, ..s })
            &&& s.unbound(dlci).slots[i] == (if s.slots[i].dlci == Some(dlci) {
                SlotView { dlci: None, ..empty }
            } else {
                s.slots[i]
            })
            &&& s.unbound(dlci) == (AppView { slots: s.unbound(dlci).slots, ..s })
        }),
{
    lemma_find_in_two(s, Some(dlci));
    lemma_find_in_two(s, None);
}

/// The state of a channel is noted in its slot; nothing else changes.
pub proof fn law_state_is_noted_in_its_slot(s: AppView, dlci: u8, state: DlcState, i: int)
    requires
        s.wf(),
        0 <= i < 2,
    ensures
        s.with_dlc_state(dlci, state).slots[i] == (SlotView {
            state: if s.slots[i].dlci == Some(dlci) {
                state
            } else {
                s.slots[i].state
            },
            ..s.slots[i]
        }),
        s.with_dlc_state(dlci, state) == (AppView {
            slots: s.with_dlc_state(dlci, state).slots,
            ..s
        }),
{
    lemma_find_in_two(s, Some(dlci));
}

/// At the start there are two free slots, the first in focus, with nothing in them, the
/// line is down, and nothing was counted.
pub proof fn law_nothing_at_the_start(cfg: AppConfig, i: int)
    requires
        0 <= i < 2,
    ensures
        ({
            let s = AppView::initial(cfg);
            let a = s.slots[i];
            &&& s.slots.len() == 2 && s.focus == 0 && s.link == LinkState::Down
            &&& a.dlci is None && a.state == DlcState::Closed && a.records.len() == 0 && a.follow
                && a.scroll == 0
            &&& s.stats.rx_frames == 0 && s.stats.tx_frames == 0 && s.stats.fcs_errors == 0
                && s.stats.garbage_bytes == 0 && s.unrouted == 0
            &&& s.raw_log.len() == 0 && !s.show_raw && s.dialog is None && s.notice is None
            &&& s.input.buffer.len() == 0 && s.input.history.len() == 0 && s.cfg == cfg
        }),
{
}

/// What the raw view says of a frame: its channel, its kind by name, its P/F bit, and the
/// length of its information; with its bytes as they are on the wire. Bytes that are no
/// frame are kept as they came.
pub proof fn law_raw_view_tells_the_frame(ts: Timestamp, f: FrameView, outgoing: bool)
    ensures
        ({
            let e = RawView::of_frame(ts, f, outgoing);
            let channel = text::decimal(f.dlci as nat);
            let name = match f.ftype {
                FrameType::Sabm => seq!['S', 'A', 'B', 'M'],
                FrameType::Ua => seq!['U', 'A'],
                FrameType::Dm => seq!['D', 'M'],
                FrameType::Disc => seq!['D', 'I', 'S', 'C'],
                FrameType::Uih => seq!['U', 'I', 'H'],
            };
            let bit = if f.pf {
                '1'
            } else {
                '0'
            };
            &&& e.ts == ts && e.outgoing == outgoing && e.ok && e.bytes == f.wire()
            &&& e.summary == seq!['D', 'L', 'C', 'I', ' '] + channel + seq![' '] + name + seq![
                ' ',
                'P',
                '/',
                'F',
                '=',
                bit,
                ' ',
                'l',
                'e',
                'n',
                '=',
            ] + text::decimal(f.info.len())
        }),
{
    reveal_strlit("DLCI ");
    reveal_strlit(" ");
    reveal_strlit(" P/F=1 len=");
    reveal_strlit(" P/F=0 len=");
    reveal_strlit("SABM");
    reveal_strlit("UA");
    reveal_strlit("DM");
    reveal_strlit("DISC");
    reveal_strlit("UIH");
    assert("DLCI "@ =~= seq!['D', 'L', 'C', 'I', ' ']);
    assert(" "@ =~= seq![' ']);
    assert(" P/F=1 len="@ =~= seq![' ', 'P', '/', 'F', '=', '1', ' ', 'l', 'e', 'n', '=']);
    assert(" P/F=0 len="@ =~= seq![' ', 'P', '/', 'F', '=', '0', ' ', 'l', 'e', 'n', '=']);
    assert("SABM"@ =~= seq!['S', 'A', 'B', 'M']);
    assert("UA"@ =~= seq!['U', 'A']);
    assert("DM"@ =~= seq!['D', 'M']);
    assert("DISC"@ =~= seq!['D', 'I', 'S', 'C']);
    assert("UIH"@ =~= seq!['U', 'I', 'H']);
}

/// A line of the raw view: the time, `TX` for what was sent and `RX` for what came, what
/// it is, and a mark on what is no good frame.
pub proof fn law_line_of_the_raw_view(e: RawView)
    requires
        e.summary.len() > 0,
        !text::is_white(e.summary.last()),
    ensures
        ({
            let way = if e.outgoing {
                'T'
            } else {
                'R'
            };
            let head = e.ts.time() + seq![' ', way, 'X', ' '] + e.summary;
            e.line() == (if e.ok {
                head
            } else {
                head + " [FCS 失败]"@
            })
        }),
{
    reveal_strlit(" TX ");
    reveal_strlit(" RX ");
    reveal_strlit(" ");
    reveal_strlit(" [FCS 失败]");
    assert(" TX "@ =~= seq![' ', 'T', 'X', ' ']);
    assert(" RX "@ =~= seq![' ', 'R', 'X', ' ']);
    let way = if e.outgoing {
        'T'
    } else {
        'R'
    };
    let head = e.ts.time() + seq![' ', way, 'X', ' '] + e.summary;
    assert(head.last() == e.summary.last());
    if e.ok {
        assert(" "@ =~= seq![' ']);
        let whole = head + " "@;
        assert(whole.drop_last() =~= head);
        assert(whole.last() == ' ');
        reveal_with_fuel(text::trimmed_end, 2);
        assert(text::trimmed_end(whole) == head);
    } else {
        let whole = head + " [FCS 失败]"@;
        assert(whole.last() == ']');
    }
}

} // verus!
