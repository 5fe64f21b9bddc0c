//! Where the screen and the link state machine meet.
//!
//! Events and commands go in. What they change on the screen happens here; what
//! they ask of the outside (frames to send, lines to log, a log file to open) is
//! left in a queue of effects, which the main loop carries out in order.
use crate::app::event::{Event, EventView, TxRequest, TxView};
#[allow(unused_imports)]
use crate::app::keymap;
use crate::app::keymap::{map_key, Command, CommandView};
#[allow(unused_imports)]
use crate::app::log;
use crate::app::log::{opening_line, record_text};
#[allow(unused_imports)]
use crate::app::record;
use crate::app::record::{Direction, Record, RecordView};
#[allow(unused_imports)]
use crate::app::state;
use crate::app::state::{
    AppConfig, AppState, AppView, LinkState, RawEntry, RawView, SlotView, StatsView,
};
#[allow(unused_imports)]
use crate::clock;
use crate::clock::Timestamp;
use crate::mux::control::{ControlMessage, ControlView};
use crate::mux::frame::{copy_bytes, Frame, FrameView};
#[allow(unused_imports)]
use crate::mux::session;
use crate::mux::session::{Action, ActionView, DlcState, Session, SessionConfig, SessionView};
#[allow(unused_imports)]
use crate::text;
use crate::text::{push_decimal, push_text};
use vstd::prelude::*;
use vstd::string::*;

verus! {

/// The V.24 signals of a terminal that is ready: DV, RTC and RTR.
pub const MSC_SIGNALS_READY: u8 = 0x8D;

/// Something to be done outside.
#[derive(Debug)]
pub enum Effect {
    /// Hand this to the writing thread.
    Transmit(TxRequest),
    /// Write this to the log.
    Log(String),
    /// Open the log file for appending and write the first line to it. The
    /// outcome is reported to [`Runtime::log_opened`].
    OpenLog { path: String, first_line: String },
    /// See that what was logged is in the file.
    FlushLog,
    /// Close the log file.
    CloseLog,
}

/// What an [`Effect`] holds.
#[verifier::ext_equal]
pub enum EffectView {
    Transmit(TxView),
    Log(Seq<char>),
    OpenLog { path: Seq<char>, first_line: Seq<char> },
    FlushLog,
    CloseLog,
}

impl View for Effect {
    type V = EffectView;

    open spec fn view(&self) -> EffectView {
        match self {
            Effect::Transmit(tx) => EffectView::Transmit(tx@),
            Effect::Log(words) => EffectView::Log(words@),
            Effect::OpenLog { path, first_line } => EffectView::OpenLog {
                path: path@,
                first_line: first_line@,
            },
            Effect::FlushLog => EffectView::FlushLog,
            Effect::CloseLog => EffectView::CloseLog,
        }
    }
}

/// What a list of effects holds.
pub open spec fn effect_views(effects: Seq<Effect>) -> Seq<EffectView> {
    effects.map_values(|e: Effect| e@)
}

/// Data that is being gathered into one record.
///
/// Some modules send every byte in a frame of its own. Data of one channel and
/// direction that comes close together is shown as one record, with the time of
/// the first piece. The raw view still has every frame.
#[derive(Debug)]
pub struct Pending {
    pub dlci: u8,
    pub dir: Direction,
    /// When the first piece came.
    pub ts: Timestamp,
    pub bytes: Vec<u8>,
    /// When the last piece came, on the clock that never goes back.
    pub last: u64,
}

/// What [`Pending`] holds.
#[verifier::ext_equal]
pub struct PendingView {
    pub dlci: u8,
    pub dir: Direction,
    pub ts: Timestamp,
    pub bytes: Seq<u8>,
    pub last: u64,
}

impl View for Pending {
    type V = PendingView;

    open spec fn view(&self) -> PendingView {
        PendingView {
            dlci: self.dlci,
            dir: self.dir,
            ts: self.ts,
            bytes: self.bytes@,
            last: self.last,
        }
    }
}

/// What is being gathered, if anything is.
pub open spec fn pending_view(p: Option<Pending>) -> Option<PendingView> {
    match p {
        Some(pending) => Some(pending@),
        None => None,
    }
}

/// How long ago `last` is; never less than nothing.
pub open spec fn since(last: u64, now: u64) -> int {
    if now >= last {
        now - last
    } else {
        0
    }
}

impl PendingView {
    /// The record that the data becomes.
    pub open spec fn record(self) -> RecordView {
        RecordView::data(self.ts, self.dir, self.dlci, self.bytes)
    }

    /// Whether a record goes on where this data stops: same channel, same
    /// direction, within the window.
    pub open spec fn takes(self, rec: RecordView, now: u64, window: u64) -> bool {
        self.dlci == rec.dlci && self.dir == rec.dir && since(self.last, now) <= window
    }
}

/// The screen, the channels and what is on its way out.
pub struct Runtime {
    pub state: AppState,
    pub session: Session,
    /// What is to be done outside, earliest first.
    pub effects: Vec<Effect>,
    /// Whether a log is being written.
    pub logging: bool,
    /// Where the log goes, once that is known.
    pub log_path: Option<String>,
    pub running: bool,
    pub pending: Option<Pending>,
}

/// What a [`Runtime`] holds.
#[verifier::ext_equal]
pub struct RuntimeView {
    pub state: AppView,
    pub session: SessionView,
    pub effects: Seq<EffectView>,
    pub logging: bool,
    pub log_path: Option<Seq<char>>,
    pub running: bool,
    pub pending: Option<PendingView>,
}

impl View for Runtime {
    type V = RuntimeView;

    open spec fn view(&self) -> RuntimeView {
        RuntimeView {
            state: self.state@,
            session: self.session@,
            effects: effect_views(self.effects@),
            logging: self.logging,
            log_path: record::text_view(self.log_path),
            running: self.running,
            pending: pending_view(self.pending),
        }
    }
}

/// The message for a control message from the peer.
pub open spec fn control_notice(msg: ControlView, is_command: bool) -> Seq<char> {
    (if is_command {
        "控制通道命令："@
    } else {
        "控制通道响应："@
    }) + msg.described()
}

/// The frame of a command on the control channel.
pub open spec fn control_frame(msg: ControlView) -> FrameView {
    FrameView::uih(0, msg.command())
}

/// The name of a log file that nobody gave a name.
pub open spec fn default_log_path(ts: Timestamp) -> Seq<char> {
    "cmux-"@ + clock::strftime(ts.secs(), ts.nanos(), "%Y%m%d-%H%M%S"@) + ".log"@
}

impl RuntimeView {
    /// The runtime with another screen.
    pub open spec fn on(self, state: AppView) -> RuntimeView {
        RuntimeView { state, ..self }
    }

    /// The runtime with a message at the bottom.
    pub open spec fn noticed(self, words: Seq<char>) -> RuntimeView {
        self.on(AppView { notice: Some(words), ..self.state })
    }

    /// The runtime with one more thing to be done outside.
    pub open spec fn with_effect(self, e: EffectView) -> RuntimeView {
        RuntimeView { effects: self.effects.push(e), ..self }
    }

    /// A record goes to the log, where one is written, and to the screen.
    #[verifier::opaque]
    pub open spec fn emitted(self, rec: RecordView) -> RuntimeView {
        (if self.logging {
            self.with_effect(EffectView::Log(log::entry(rec)))
        } else {
            self
        }).on(self.state.with_record(rec))
    }

    /// What was gathered becomes a record.
    #[verifier::opaque]
    pub open spec fn flushed(self) -> RuntimeView {
        match self.pending {
            Some(p) => RuntimeView { pending: None, ..self }.emitted(p.record()),
            None => self,
        }
    }

    /// What was gathered becomes a record once the window is over.
    #[verifier::opaque]
    pub open spec fn flushed_if_stale(self, now: u64) -> RuntimeView {
        match self.pending {
            Some(p) => if since(p.last, now) > self.state.cfg.merge_window {
                self.flushed()
            } else {
                self
            },
            None => self,
        }
    }

    /// A record comes. Words go out at once, behind whatever was gathered. Data
    /// is gathered as long as it goes on where the last of it stopped, and is
    /// not gathered at all where the window is zero.
    #[verifier::opaque]
    pub open spec fn recorded(self, rec: RecordView, now: u64) -> RuntimeView {
        if rec.note is Some {
            self.flushed().emitted(rec)
        } else if self.state.cfg.merge_window == 0 {
            self.emitted(rec)
        } else {
            match self.pending {
                Some(p) if p.takes(rec, now, self.state.cfg.merge_window) => RuntimeView {
                    pending: Some(PendingView { bytes: p.bytes + rec.bytes, last: now, ..p }),
                    ..self
                },
                _ => RuntimeView {
                    pending: Some(
                        PendingView {
                            dlci: rec.dlci,
                            dir: rec.dir,
                            ts: rec.ts,
                            bytes: rec.bytes,
                            last: now,
                        },
                    ),
                    ..self.flushed()
                },
            }
        }
    }

    /// A record of words.
    pub open spec fn told(
        self,
        dir: Direction,
        dlci: u8,
        words: Seq<char>,
        now: u64,
        ts: Timestamp,
    ) -> RuntimeView {
        self.recorded(RecordView::words(ts, dir, dlci, words), now)
    }

    /// A frame goes out: into the raw view, counted, and to the writing thread.
    #[verifier::opaque]
    pub open spec fn sent(self, f: FrameView, ts: Timestamp) -> RuntimeView {
        let raw = self.state.with_raw(RawView::of_frame(ts, f, true));
        self.on(
            AppView { stats: StatsView { tx_frames: raw.stats.tx_frames + 1, ..raw.stats }, ..raw },
        ).with_effect(EffectView::Transmit(TxView::Frame(f)))
    }

    /// One thing that the link state machine asks for is done.
    #[verifier::opaque]
    pub open spec fn applied(self, act: ActionView, now: u64, ts: Timestamp) -> RuntimeView {
        match act {
            ActionView::Send(f) => self.sent(f, ts),
            ActionView::Opened(dlci) => {
                let up = self.state.with_dlc_state(dlci, DlcState::Open);
                self.on(AppView { link: LinkState::Up, ..up }).told(
                    Direction::Info,
                    dlci,
                    "建链成功"@,
                    now,
                    ts,
                )
            },
            ActionView::Failed(dlci, why) => self.on(
                self.state.with_dlc_state(dlci, DlcState::Failed),
            ).told(Direction::Error, dlci, "建链失败："@ + why, now, ts),
            ActionView::Closed(dlci) => self.on(
                self.state.with_dlc_state(dlci, DlcState::Closed),
            ).told(Direction::Info, dlci, "通道已关闭"@, now, ts),
            ActionView::Data(dlci, data) => self.recorded(
                RecordView::data(ts, Direction::Rx, dlci, data),
                now,
            ),
            ActionView::Control(msg, is_command) => self.noticed(
                control_notice(msg, is_command),
            ),
        }
    }

    /// Everything that the link state machine asks for is done, in order.
    pub open spec fn applied_all(
        self,
        acts: Seq<ActionView>,
        now: u64,
        ts: Timestamp,
    ) -> RuntimeView
        decreases acts.len(),
    {
        if acts.len() == 0 {
            self
        } else {
            self.applied_all(acts.drop_last(), now, ts).applied(acts.last(), now, ts)
        }
    }

    /// The runtime with another state of the channels.
    pub open spec fn linked(self, session: SessionView) -> RuntimeView {
        RuntimeView { session, ..self }
    }

    /// The counters with some added.
    pub open spec fn counted(
        self,
        rx_frames: nat,
        fcs_errors: nat,
        garbage_bytes: nat,
    ) -> RuntimeView {
        let stats = self.state.stats;
        self.on(
            AppView {
                stats: StatsView {
                    rx_frames: stats.rx_frames + rx_frames,
                    tx_frames: stats.tx_frames,
                    fcs_errors: stats.fcs_errors + fcs_errors,
                    garbage_bytes: stats.garbage_bytes + garbage_bytes,
                },
                ..self.state
            },
        )
    }

    /// The runtime with one more line in the raw view.
    pub open spec fn seen(self, entry: RawView) -> RuntimeView {
        self.on(self.state.with_raw(entry))
    }

    /// The runtime after an event. Keys are not for here.
    pub open spec fn after_event(self, ev: EventView, now: u64, ts: Timestamp) -> RuntimeView {
        match ev {
            EventView::Frame(f) => self.counted(1, 0, 0).seen(
                RawView::of_frame(ts, f, false),
            ).linked(self.session.after_frame(f)).applied_all(
                self.session.frame_actions(f),
                now,
                ts,
            ),
            EventView::FcsError(raw) => self.counted(0, 1, 0).seen(
                RawView::of_bad(ts, "FCS 不匹配"@, raw),
            ),
            EventView::Garbage(bytes) => self.counted(0, 0, bytes.len()).seen(
                RawView::of_bad(
                    ts,
                    "无法成帧的 "@ + text::decimal(bytes.len()) + " 字节"@,
                    bytes,
                ),
            ),
            EventView::SerialError(why) => self.on(
                AppView {
                    link: LinkState::Down,
                    slots: self.state.slots.map_values(
                        |s: SlotView| SlotView { state: DlcState::Closed, ..s },
                    ),
                    ..self.state
                },
            ).noticed("串口错误："@ + why + " — 请退出并重启工具"@),
            EventView::Tick => {
                let calm = self.flushed_if_stale(now);
                calm.linked(self.session.ticked(now)).applied_all(
                    self.session.tick_actions(now),
                    now,
                    ts,
                )
            },
            EventView::Key(_) => self,
        }
    }

    /// The runtime after a request to open a channel: what was in the slot is let
    /// go, the channel is bound to it unless it has a slot already, and the link is
    /// asked for. With both slots taken there is only a message.
    #[verifier::opaque]
    pub open spec fn opening(self, dlci: u8, slot: usize, now: u64, ts: Timestamp) -> RuntimeView {
        let freed = match self.state.slots[slot as int].dlci {
            Some(existing) if existing != dlci => self.on(self.state.unbound(existing)),
            _ => self,
        };
        if freed.state.slot_wanted(dlci, slot as int) is None {
            freed.noticed("两个槽位都已占用，请先关闭一个"@)
        } else {
            let bound = freed.on(
                freed.state.bound_in(dlci, slot as int).with_dlc_state(
                    dlci,
                    DlcState::Opening { attempts: 1 },
                ),
            ).told(Direction::Info, dlci, "发起建链 (SABM)"@, now, ts);
            bound.linked(self.session.opened(dlci, now)).applied_all(
                seq![ActionView::Send(FrameView::sabm(dlci))],
                now,
                ts,
            )
        }
    }

    /// The runtime after the log was turned on or off. Turned on, it is still to
    /// be opened: under the name that was given, else under one made of the time.
    pub open spec fn log_toggled(self, ts: Timestamp) -> RuntimeView {
        if self.logging {
            RuntimeView {
                logging: false,
                ..self.with_effect(EffectView::FlushLog).with_effect(EffectView::CloseLog).noticed(
                    "已停止记录日志"@,
                )
            }
        } else {
            self.with_effect(
                EffectView::OpenLog {
                    path: match self.log_path {
                        Some(path) => path,
                        None => default_log_path(ts),
                    },
                    first_line: log::opening(ts),
                },
            )
        }
    }

    /// The runtime after it was told how opening the log went.
    pub open spec fn log_answered(
        self,
        path: Seq<char>,
        outcome: Result<(), Seq<char>>,
    ) -> RuntimeView {
        match outcome {
            Ok(_) => RuntimeView { logging: true, log_path: Some(path), ..self }.noticed(
                "正在记录到 "@ + path,
            ),
            Err(why) => self.noticed("无法打开日志文件："@ + why),
        }
    }

    /// The runtime after a command.
    pub open spec fn after_command(
        self,
        cmd: CommandView,
        now: u64,
        ts: Timestamp,
    ) -> RuntimeView {
        match cmd {
            CommandView::Nothing => self,
            CommandView::Quit => RuntimeView { running: false, ..self },
            CommandView::Send { dlci, bytes } => if self.session.state(dlci) != DlcState::Open {
                self.told(Direction::Error, dlci, "通道未建链，无法发送"@, now, ts)
            } else {
                self.recorded(RecordView::data(ts, Direction::Tx, dlci, bytes), now).applied_all(
                    self.session.data_actions(dlci, bytes),
                    now,
                    ts,
                )
            },
            CommandView::OpenDlc { dlci, slot } => self.opening(dlci, slot, now, ts),
            CommandView::CloseDlc { dlci } => self.told(
                Direction::Info,
                dlci,
                "请求关闭通道 (DISC)"@,
                now,
                ts,
            ).linked(self.session.closed(dlci, now)).applied_all(
                seq![ActionView::Send(FrameView::disc(dlci))],
                now,
                ts,
            ),
            CommandView::SendMsc { dlci } => {
                let msg = ControlView::Msc { dlci, signals: MSC_SIGNALS_READY };
                self.noticed("已发送 "@ + msg.described()).sent(control_frame(msg), ts)
            },
            CommandView::CloseMux => self.noticed("已发送 CLD，复用即将关闭"@).sent(
                control_frame(ControlView::Cld),
                ts,
            ),
            CommandView::ToggleLog => self.log_toggled(ts),
        }
    }

    /// The runtime after channels were asked to close, one after the other.
    pub open spec fn closing(self, dlcis: Seq<u8>, now: u64, ts: Timestamp) -> RuntimeView
        decreases dlcis.len(),
    {
        if dlcis.len() == 0 {
            self
        } else {
            let before = self.closing(dlcis.drop_last(), now, ts);
            let dlci = dlcis.last();
            before.linked(before.session.closed(dlci, now)).applied_all(
                seq![ActionView::Send(FrameView::disc(dlci))],
                now,
                ts,
            )
        }
    }

    /// The runtime at the end: what was gathered is out, every open channel was
    /// asked to close, the multiplexer was closed down, the log is in its file
    /// and the writing thread was told to stop.
    pub open spec fn after_shutdown(self, now: u64, ts: Timestamp) -> RuntimeView {
        let gone = self.flushed().closing(self.session.open_below(256), now, ts).sent(
            control_frame(ControlView::Cld),
            ts,
        );
        (if gone.logging {
            gone.with_effect(EffectView::FlushLog)
        } else {
            gone
        }).with_effect(EffectView::Transmit(TxView::Shutdown))
    }

    /// An event of any kind: keys by way of the screen, all others as they are.
    pub open spec fn dispatched(self, ev: EventView, now: u64, ts: Timestamp) -> RuntimeView {
        match ev {
            EventView::Key(key) => {
                let (screen, cmd) = keymap::pressed(self.state, key);
                self.on(screen).after_command(cmd, now, ts)
            },
            _ => self.after_event(ev, now, ts),
        }
    }

    /// Every counter fits its machine word.
    pub open spec fn fits(self) -> bool {
        &&& self.state.unrouted <= u64::MAX
        &&& self.state.stats.rx_frames <= u64::MAX
        &&& self.state.stats.tx_frames <= u64::MAX
        &&& self.state.stats.fcs_errors <= u64::MAX
        &&& self.state.stats.garbage_bytes <= u64::MAX
    }
}

impl Runtime {
    /// A runtime with nothing on the screen and every channel closed.
    pub fn new(app_cfg: AppConfig, sess_cfg: SessionConfig) -> (rt: Runtime)
        ensures
            rt@ == (RuntimeView {
                state: AppView::initial(app_cfg),
                session: SessionView { cfg: sess_cfg, dlcs: Map::empty() },
                effects: Seq::empty(),
                logging: false,
                log_path: None,
                running: true,
                pending: None,
            }),
    {
        let rt = Runtime {
            state: AppState::new(app_cfg),
            session: Session::new(sess_cfg),
            effects: Vec::new(),
            logging: false,
            log_path: None,
            running: true,
            pending: None,
        };
        assert(rt@.effects =~= Seq::empty());
        rt
    }

    /// Takes out what is to be done outside.
    pub fn take_effects(&mut self) -> (effects: Vec<Effect>)
        ensures
            effect_views(effects@) == old(self)@.effects,
            final(self)@ == (RuntimeView { effects: Seq::empty(), ..old(self)@ }),
    {
        let mut effects: Vec<Effect> = Vec::new();
        std::mem::swap(&mut effects, &mut self.effects);
        assert(self@.effects =~= Seq::empty());
        effects
    }

    /// Leaves something to be done outside.
    fn leave(&mut self, e: Effect)
        ensures
            final(self)@ == old(self)@.with_effect(e@),
    {
        self.effects.push(e);
        assert(self@.effects =~= old(self)@.effects.push(e@));
    }

    /// Puts a message at the bottom.
    fn notice(&mut self, words: String)
        ensures
            final(self)@ == old(self)@.noticed(words@),
    {
        self.state.notice = Some(words);
    }

    /// Hands a record out: to the log and to the screen.
    fn emit(&mut self, rec: Record)
        requires
            old(self)@.emitted(rec@).fits(),
        ensures
            final(self)@ == old(self)@.emitted(rec@),
            final(self)@.session == old(self)@.session,
    {
        proof {
            reveal(RuntimeView::emitted);
        }
        if self.logging {
            let line = record_text(&rec);
            self.leave(Effect::Log(line));
        }
        self.state.push_record(rec);
    }

    /// Hands out what was gathered.
    fn flush_pending(&mut self)
        requires
            old(self)@.flushed().fits(),
        ensures
            final(self)@ == old(self)@.flushed(),
            final(self)@.session == old(self)@.session,
    {
        proof {
            reveal(RuntimeView::flushed);
        }
        let mut pending: Option<Pending> = None;
        std::mem::swap(&mut pending, &mut self.pending);
        if let Some(p) = pending {
            let ghost view = p@;
            let rec = Record { ts: p.ts, dir: p.dir, dlci: p.dlci, bytes: p.bytes, note: None };
            assert(rec@ =~= view.record());
            self.emit(rec);
        }
    }

    /// Hands out what was gathered once the window is over.
    fn flush_if_stale(&mut self, now: u64)
        requires
            old(self)@.flushed_if_stale(now).fits(),
        ensures
            final(self)@ == old(self)@.flushed_if_stale(now),
            final(self)@.session == old(self)@.session,
    {
        proof {
            reveal(RuntimeView::flushed_if_stale);
        }
        let window: u64 = self.state.cfg.merge_window;
        let stale = match &self.pending {
            Some(p) => now.saturating_sub(p.last) > window,
            None => false,
        };
        if stale {
            self.flush_pending();
        }
    }

    /// Takes a record in: words go out at once, data is gathered.
    fn record(&mut self, rec: Record, now: u64)
        requires
            old(self)@.recorded(rec@, now).fits(),
        ensures
            final(self)@ == old(self)@.recorded(rec@, now),
            final(self)@.session == old(self)@.session,
    {
        proof {
            reveal(RuntimeView::recorded);
        }
        proof {
            lemma_emitted_grows(self@.flushed(), rec@);
        }
        if rec.note.is_some() {
            self.flush_pending();
            self.emit(rec);
            return ;
        }
        let window: u64 = self.state.cfg.merge_window;
        if window == 0 {
            self.emit(rec);
            return ;
        }
        let mergeable = match &self.pending {
            Some(p) => p.dlci == rec.dlci && p.dir == rec.dir && now.saturating_sub(p.last)
                <= window,
            None => false,
        };
        if mergeable {
            let mut pending: Option<Pending> = None;
            std::mem::swap(&mut pending, &mut self.pending);
            if let Some(p) = pending {
                let mut p = p;
                let ghost before = p@;
                p.bytes.extend_from_slice(rec.bytes.as_slice());
                p.last = now;
                assert(p@ =~= PendingView {
                    bytes: before.bytes + rec@.bytes,
                    last: now,
                    ..before
                });
                self.pending = Some(p);
            }
        } else {
            self.flush_pending();
            self.pending = Some(
                Pending {
                    dlci: rec.dlci,
                    dir: rec.dir,
                    ts: rec.ts,
                    bytes: rec.bytes,
                    last: now,
                },
            );
        }
    }

    /// Takes a record of words in.
    fn tell(&mut self, dir: Direction, dlci: u8, words: &str, now: u64, ts: Timestamp)
        requires
            old(self)@.told(dir, dlci, words@, now, ts).fits(),
        ensures
            final(self)@ == old(self)@.told(dir, dlci, words@, now, ts),
            final(self)@.session == old(self)@.session,
    {
        self.record(Record::words_at(ts, dir, dlci, words), now);
    }

    /// Sends a frame.
    fn send_frame(&mut self, f: Frame, ts: Timestamp)
        requires
            old(self)@.sent(f@, ts).fits(),
        ensures
            final(self)@ == old(self)@.sent(f@, ts),
    {
        proof {
            reveal(RuntimeView::sent);
        }
        self.state.push_raw(RawEntry::frame_at(ts, &f, true));
        self.state.stats.tx_frames = self.state.stats.tx_frames + 1;
        self.leave(Effect::Transmit(TxRequest::Frame(f)));
    }

    /// Does one thing that the link state machine asks for.
    fn apply_one(&mut self, act: Action, now: u64, ts: Timestamp)
        requires
            old(self)@.applied(act@, now, ts).fits(),
        ensures
            final(self)@ == old(self)@.applied(act@, now, ts),
    {
        proof {
            reveal(RuntimeView::applied);
        }
        match act {
            Action::Send(f) => {
                self.send_frame(f, ts);
            },
            Action::Opened(dlci) => {
                self.state.set_dlc_state(dlci, DlcState::Open);
                self.state.link = LinkState::Up;
                self.tell(Direction::Info, dlci, "建链成功", now, ts);
            },
            Action::Failed(dlci, why) => {
                self.state.set_dlc_state(dlci, DlcState::Failed);
                let mut words = String::new();
                push_text(&mut words, "建链失败：");
                push_text(&mut words, why.as_str());
                assert(words@ =~= "建链失败："@ + why@);
                self.tell(Direction::Error, dlci, words.as_str(), now, ts);
            },
            Action::Closed(dlci) => {
                self.state.set_dlc_state(dlci, DlcState::Closed);
                self.tell(Direction::Info, dlci, "通道已关闭", now, ts);
            },
            Action::Data(dlci, data) => {
                self.record(Record::data_at(ts, Direction::Rx, dlci, data), now);
            },
            Action::Control(msg, is_command) => {
                let mut words = String::new();
                if is_command {
                    push_text(&mut words, "控制通道命令：");
                } else {
                    push_text(&mut words, "控制通道响应：");
                }
                push_text(&mut words, msg.describe().as_str());
                assert(words@ =~= control_notice(msg@, is_command));
                self.notice(words);
            },
        }
    }

    /// Does what the link state machine asks for.
    fn apply(&mut self, actions: Vec<Action>, now: u64, ts: Timestamp)
        requires
            old(self)@.applied_all(session::action_views(actions@), now, ts).fits(),
        ensures
            final(self)@ == old(self)@.applied_all(session::action_views(actions@), now, ts),
    {
        let ghost start = self@;
        let ghost views = session::action_views(actions@);
        for act in it: actions
            invariant
                views == session::action_views(it.seq()),
                start.applied_all(views, now, ts).fits(),
                self@ == start.applied_all(views.take(it.index()), now, ts),
        {
            let ghost i = it.index();
            proof {
                assert(views[i] == act@);
                assert(views.take(i + 1).drop_last() =~= views.take(i));
                lemma_counters_grow(start, views, i + 1, now, ts);
            }
            self.apply_one(act, now, ts);
        }
        assert(views.take(views.len() as int) =~= views);
    }

    /// Takes an event in at a given time.
    pub fn on_event_at(&mut self, ev: Event, now: u64, ts: Timestamp)
        requires
            old(self)@.after_event(ev@, now, ts).fits(),
        ensures
            final(self)@ == old(self)@.after_event(ev@, now, ts),
    {
        match ev {
            Event::Frame(f) => {
                proof {
                    let received = self@.counted(1, 0, 0).seen(
                        RawView::of_frame(ts, f@, false),
                    ).linked(self@.session.after_frame(f@));
                    lemma_counters_grow(received, self@.session.frame_actions(f@), 0, now, ts);
                    assert(self@.session.frame_actions(f@).take(0) =~= Seq::empty());
                }
                self.state.stats.rx_frames = self.state.stats.rx_frames + 1;
                self.state.push_raw(RawEntry::frame_at(ts, &f, false));
                let acts = self.session.on_frame(&f, now);
                self.apply(acts, now, ts);
            },
            Event::FcsError(raw) => {
                self.state.stats.fcs_errors = self.state.stats.fcs_errors + 1;
                self.state.push_raw(RawEntry::bad_at(ts, "FCS 不匹配", raw));
            },
            Event::Garbage(bytes) => {
                let n: u64 = bytes.len() as u64;
                self.state.stats.garbage_bytes = self.state.stats.garbage_bytes + n;
                let mut words = String::new();
                push_text(&mut words, "无法成帧的 ");
                push_decimal(&mut words, n);
                push_text(&mut words, " 字节");
                assert(words@ =~= "无法成帧的 "@ + text::decimal(bytes@.len()) + " 字节"@);
                self.state.push_raw(RawEntry::bad_at(ts, words.as_str(), bytes));
            },
            Event::SerialError(why) => {
                self.state.link = LinkState::Down;
                let n: usize = self.state.slots.len();
                let ghost before = self@;
                for i in 0..n
                    invariant
                        n == self.state.slots@.len(),
                        before.state.slots.len() == n,
                        self@ == before.on(AppView { slots: self@.state.slots, ..before.state }),
                        forall|k: int|
                            0 <= k < n ==> #[trigger] self@.state.slots[k] == (if k < i {
                                SlotView { state: DlcState::Closed, ..before.state.slots[k] }
                            } else {
                                before.state.slots[k]
                            }),
                {
                    let ghost shown = self@.state.slots;
                    self.state.slots[i].state = DlcState::Closed;
                    assert(self@.state.slots =~= shown.update(
                        i as int,
                        SlotView { state: DlcState::Closed, ..shown[i as int] },
                    ));
                }
                assert(self@.state.slots =~= before.state.slots.map_values(
                    |s: SlotView| SlotView { state: DlcState::Closed, ..s },
                ));
                let mut words = String::new();
                push_text(&mut words, "串口错误：");
                push_text(&mut words, why.as_str());
                push_text(&mut words, " — 请退出并重启工具");
                assert(words@ =~= "串口错误："@ + why@ + " — 请退出并重启工具"@);
                self.notice(words);
            },
            Event::Tick => {
                proof {
                    let calm = self@.flushed_if_stale(now).linked(self@.session.ticked(now));
                    lemma_counters_grow(calm, self@.session.tick_actions(now), 0, now, ts);
                    assert(self@.session.tick_actions(now).take(0) =~= Seq::empty());
                }
                self.flush_if_stale(now);
                let acts = self.session.tick(now);
                self.apply(acts, now, ts);
            },
            Event::Key(_) => {},
        }
    }

    /// Takes an event in. Its records carry the time that the clock shows.
    pub fn on_event(&mut self, ev: Event, now: u64)
        requires
            forall|ts: Timestamp| #[trigger] old(self)@.after_event(ev@, now, ts).fits(),
        ensures
            exists|ts: Timestamp| final(self)@ == #[trigger] old(self)@.after_event(ev@, now, ts),
    {
        let ts = Timestamp::now();
        self.on_event_at(ev, now, ts);
    }

    /// Opens a channel in a slot.
    fn open_dlc(&mut self, dlci: u8, slot: usize, now: u64, ts: Timestamp)
        requires
            slot < old(self)@.state.slots.len(),
            old(self)@.opening(dlci, slot, now, ts).fits(),
        ensures
            final(self)@ == old(self)@.opening(dlci, slot, now, ts),
    {
        proof {
            reveal(RuntimeView::opening);
        }
        if let Some(existing) = self.state.slots[slot].dlci {
            if existing != dlci {
                self.state.unbind(existing);
            }
        }
        let ghost freed = self@;
        if self.state.bind_in(dlci, slot).is_none() {
            self.notice("两个槽位都已占用，请先关闭一个".to_string());
            return ;
        }
        self.state.set_dlc_state(dlci, DlcState::Opening { attempts: 1 });
        proof {
            let bound = self@.told(Direction::Info, dlci, "发起建链 (SABM)"@, now, ts).linked(
                old(self)@.session.opened(dlci, now),
            );
            let acts = seq![ActionView::Send(FrameView::sabm(dlci))];
            lemma_counters_grow(bound, acts, 0, now, ts);
            assert(acts.take(0) =~= Seq::empty());
        }
        self.tell(Direction::Info, dlci, "发起建链 (SABM)", now, ts);
        let acts = self.session.open(dlci, now);
        self.apply(acts, now, ts);
    }

    /// Carries out a command at a given time.
    pub fn exec_at(&mut self, cmd: Command, now: u64, ts: Timestamp)
        requires
            cmd@ matches CommandView::OpenDlc { slot, .. } ==> slot < old(self)@.state.slots.len(),
            old(self)@.after_command(cmd@, now, ts).fits(),
        ensures
            final(self)@ == old(self)@.after_command(cmd@, now, ts),
    {
        match cmd {
            Command::Nothing => {},
            Command::Quit => {
                self.running = false;
            },
            Command::Send { dlci, bytes } => {
                if self.session.state(dlci) != DlcState::Open {
                    self.tell(Direction::Error, dlci, "通道未建链，无法发送", now, ts);
                    return ;
                }
                proof {
                    let noted = self@.recorded(
                        RecordView::data(ts, Direction::Tx, dlci, bytes@),
                        now,
                    );
                    let acts = self@.session.data_actions(dlci, bytes@);
                    lemma_counters_grow(noted, acts, 0, now, ts);
                    assert(acts.take(0) =~= Seq::empty());
                }
                self.record(Record::data_at(ts, Direction::Tx, dlci, copy_bytes(&bytes)), now);
                let acts = self.session.send_data(dlci, bytes);
                self.apply(acts, now, ts);
            },
            Command::OpenDlc { dlci, slot } => {
                self.open_dlc(dlci, slot, now, ts);
            },
            Command::CloseDlc { dlci } => {
                proof {
                    let noted = self@.told(
                        Direction::Info,
                        dlci,
                        "请求关闭通道 (DISC)"@,
                        now,
                        ts,
                    ).linked(self@.session.closed(dlci, now));
                    let acts = seq![ActionView::Send(FrameView::disc(dlci))];
                    lemma_counters_grow(noted, acts, 0, now, ts);
                    assert(acts.take(0) =~= Seq::empty());
                }
                self.tell(Direction::Info, dlci, "请求关闭通道 (DISC)", now, ts);
                let acts = self.session.close(dlci, now);
                self.apply(acts, now, ts);
            },
            Command::SendMsc { dlci } => {
                let msg = ControlMessage::Msc { dlci, signals: MSC_SIGNALS_READY };
                let mut words = String::new();
                push_text(&mut words, "已发送 ");
                push_text(&mut words, msg.describe().as_str());
                assert(words@ =~= "已发送 "@ + msg@.described());
                self.notice(words);
                self.send_frame(Frame::uih(0, msg.encode_command()), ts);
            },
            Command::CloseMux => {
                self.notice("已发送 CLD，复用即将关闭".to_string());
                self.send_frame(Frame::uih(0, ControlMessage::Cld.encode_command()), ts);
            },
            Command::ToggleLog => {
                self.toggle_log(ts);
            },
        }
    }

    /// Carries out a command. Its records carry the time that the clock shows.
    pub fn exec(&mut self, cmd: Command, now: u64)
        requires
            cmd@ matches CommandView::OpenDlc { slot, .. } ==> slot < old(self)@.state.slots.len(),
            forall|ts: Timestamp| #[trigger] old(self)@.after_command(cmd@, now, ts).fits(),
        ensures
            exists|ts: Timestamp| final(self)@ == #[trigger] old(self)@.after_command(cmd@, now, ts),
    {
        let ts = Timestamp::now();
        self.exec_at(cmd, now, ts);
    }

    /// Turns the log on or off.
    fn toggle_log(&mut self, ts: Timestamp)
        ensures
            final(self)@ == old(self)@.log_toggled(ts),
    {
        if self.logging {
            self.leave(Effect::FlushLog);
            self.leave(Effect::CloseLog);
            self.logging = false;
            self.notice("已停止记录日志".to_string());
            return ;
        }
        let path = match &self.log_path {
            Some(path) => path.clone(),
            None => {
                let mut path = String::new();
                push_text(&mut path, "cmux-");
                push_text(&mut path, ts.file_stamp().as_str());
                push_text(&mut path, ".log");
                assert(path@ =~= default_log_path(ts));
                path
            },
        };
        self.leave(Effect::OpenLog { path, first_line: opening_line(&ts) });
    }

    /// Takes in how opening the log went.
    pub fn log_opened(&mut self, path: &str, outcome: Result<(), String>)
        ensures
            final(self)@ == old(self)@.log_answered(
                path@,
                match outcome {
                    Ok(_) => Ok(()),
                    Err(why) => Err(why@),
                },
            ),
    {
        let mut words = String::new();
        match outcome {
            Ok(_) => {
                self.logging = true;
                self.log_path = Some(path.to_string());
                push_text(&mut words, "正在记录到 ");
                push_text(&mut words, path);
                assert(words@ =~= "正在记录到 "@ + path@);
            },
            Err(why) => {
                push_text(&mut words, "无法打开日志文件：");
                push_text(&mut words, why.as_str());
                assert(words@ =~= "无法打开日志文件："@ + why@);
            },
        }
        self.notice(words);
    }

    /// Winds everything up, at a given time.
    pub fn shutdown_at(&mut self, now: u64, ts: Timestamp)
        requires
            old(self)@.after_shutdown(now, ts).fits(),
        ensures
            final(self)@ == old(self)@.after_shutdown(now, ts),
    {
        let dlcis = self.session.open_dlcis();
        proof {
            lemma_sent_grows(
                self@.flushed().closing(dlcis@, now, ts),
                control_frame(ControlView::Cld),
                ts,
            );
            lemma_closing_grows(self@.flushed(), dlcis@, 0, now, ts);
            assert(dlcis@.take(0) =~= Seq::empty());
        }
        self.flush_pending();
        let ghost start = self@;
        for i in 0..dlcis.len()
            invariant
                start.closing(dlcis@, now, ts).fits(),
                self@ == start.closing(dlcis@.take(i as int), now, ts),
        {
            proof {
                assert(dlcis@.take(i + 1).drop_last() =~= dlcis@.take(i as int));
                lemma_closing_grows(start, dlcis@, i + 1, now, ts);
            }
            let acts = self.session.close(dlcis[i], now);
            self.apply(acts, now, ts);
        }
        assert(dlcis@.take(dlcis@.len() as int) =~= dlcis@);
        self.send_frame(Frame::uih(0, ControlMessage::Cld.encode_command()), ts);
        if self.logging {
            self.leave(Effect::FlushLog);
        }
        self.leave(Effect::Transmit(TxRequest::Shutdown));
    }

    /// Winds everything up.
    pub fn shutdown(&mut self, now: u64)
        requires
            forall|ts: Timestamp| #[trigger] old(self)@.after_shutdown(now, ts).fits(),
        ensures
            exists|ts: Timestamp| final(self)@ == #[trigger] old(self)@.after_shutdown(now, ts),
    {
        let ts = Timestamp::now();
        self.shutdown_at(now, ts);
    }

    /// Takes an event of any kind in, at a given time: keys go by way of the
    /// screen, all others straight to the runtime.
    pub fn dispatch_at(&mut self, ev: Event, now: u64, ts: Timestamp)
        requires
            old(self)@.state.wf(),
            old(self)@.dispatched(ev@, now, ts).fits(),
        ensures
            final(self)@ == old(self)@.dispatched(ev@, now, ts),
    {
        match ev {
            Event::Key(key) => {
                proof {
                    keymap::law_keys_keep_order(self@.state, key);
                }
                let cmd = map_key(&mut self.state, key);
                self.exec_at(cmd, now, ts);
            },
            other => {
                self.on_event_at(other, now, ts);
            },
        }
    }

    /// Takes an event of any kind in. Its records carry the time that the clock
    /// shows.
    pub fn dispatch(&mut self, ev: Event, now: u64)
        requires
            old(self)@.state.wf(),
            forall|ts: Timestamp| #[trigger] old(self)@.dispatched(ev@, now, ts).fits(),
        ensures
            exists|ts: Timestamp| final(self)@ == #[trigger] old(self)@.dispatched(ev@, now, ts),
    {
        let ts = Timestamp::now();
        self.dispatch_at(ev, now, ts);
    }
}

/// Counters do not shrink as channels are asked to close.
proof fn lemma_closing_grows(rt: RuntimeView, dlcis: Seq<u8>, n: int, now: u64, ts: Timestamp)
    requires
        0 <= n <= dlcis.len(),
        rt.closing(dlcis, now, ts).fits(),
    ensures
        rt.closing(dlcis.take(n), now, ts).fits(),
    decreases dlcis.len(),
{
    if n == dlcis.len() {
        assert(dlcis.take(n) =~= dlcis);
    } else {
        let less = dlcis.drop_last();
        let before = rt.closing(less, now, ts);
        let acts = seq![ActionView::Send(FrameView::disc(dlcis.last()))];
        lemma_counters_grow(
            before.linked(before.session.closed(dlcis.last(), now)),
            acts,
            0,
            now,
            ts,
        );
        assert(acts.take(0) =~= Seq::empty());
        lemma_closing_grows(rt, less, n, now, ts);
        assert(less.take(n) =~= dlcis.take(n));
    }
}

/// Counters only grow from one thing to the next.
proof fn lemma_counters_grow(
    rt: RuntimeView,
    acts: Seq<ActionView>,
    n: int,
    now: u64,
    ts: Timestamp,
)
    requires
        0 <= n <= acts.len(),
        rt.applied_all(acts, now, ts).fits(),
    ensures
        rt.applied_all(acts.take(n), now, ts).fits(),
    decreases acts.len(),
{
    if n == acts.len() {
        assert(acts.take(n) =~= acts);
    } else {
        let less = acts.drop_last();
        lemma_applied_grows(rt.applied_all(less, now, ts), acts.last(), now, ts);
        lemma_counters_grow(rt, less, n, now, ts);
        assert(less.take(n) =~= acts.take(n));
    }
}

/// Counters do not shrink when one thing is done.
proof fn lemma_applied_grows(rt: RuntimeView, act: ActionView, now: u64, ts: Timestamp)
    ensures
        rt.applied(act, now, ts).fits() ==> rt.fits(),
{
    reveal(RuntimeView::applied);
    match act {
        ActionView::Send(f) => lemma_sent_grows(rt, f, ts),
        ActionView::Opened(dlci) => {
            let up = AppView {
                link: LinkState::Up,
                ..rt.state.with_dlc_state(dlci, DlcState::Open)
            };
            lemma_recorded_grows(
                rt.on(up),
                RecordView::words(ts, Direction::Info, dlci, "建链成功"@),
                now,
            );
        },
        ActionView::Failed(dlci, why) => lemma_recorded_grows(
            rt.on(rt.state.with_dlc_state(dlci, DlcState::Failed)),
            RecordView::words(ts, Direction::Error, dlci, "建链失败："@ + why),
            now,
        ),
        ActionView::Closed(dlci) => lemma_recorded_grows(
            rt.on(rt.state.with_dlc_state(dlci, DlcState::Closed)),
            RecordView::words(ts, Direction::Info, dlci, "通道已关闭"@),
            now,
        ),
        ActionView::Data(dlci, data) => lemma_recorded_grows(
            rt,
            RecordView::data(ts, Direction::Rx, dlci, data),
            now,
        ),
        ActionView::Control(_, _) => {},
    }
}

/// Counters do not shrink when a record is handed out.
proof fn lemma_emitted_grows(rt: RuntimeView, rec: RecordView)
    ensures
        rt.emitted(rec).fits() ==> rt.fits(),
{
    reveal(RuntimeView::emitted);
}

/// Counters do not shrink when what was gathered is handed out.
proof fn lemma_flushed_grows(rt: RuntimeView)
    ensures
        rt.flushed().fits() ==> rt.fits(),
{
    reveal(RuntimeView::flushed);
    if let Some(p) = rt.pending {
        lemma_emitted_grows(RuntimeView { pending: None, ..rt }, p.record());
    }
}

/// Counters do not shrink when a record comes.
proof fn lemma_recorded_grows(rt: RuntimeView, rec: RecordView, now: u64)
    ensures
        rt.recorded(rec, now).fits() ==> rt.fits(),
{
    reveal(RuntimeView::recorded);
    lemma_emitted_grows(rt.flushed(), rec);
    lemma_emitted_grows(rt, rec);
    lemma_flushed_grows(rt);
}

/// Counters do not shrink when a frame is sent.
proof fn lemma_sent_grows(rt: RuntimeView, f: FrameView, ts: Timestamp)
    ensures
        rt.sent(f, ts).fits() ==> rt.fits(),
{
    reveal(RuntimeView::sent);
}

} // verus!
