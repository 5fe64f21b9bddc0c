//! The link state machine: opening, closing and data on the virtual channels.
//!
//! Nothing here waits or sends. The caller hands in the frames that came and the
//! time, and gets back what is to be done. Times are nanoseconds on a clock that
//! never goes back; a deadline past the end of that clock is its end.
use crate::mux::control::{ControlMessage, ControlView};
#[allow(unused_imports)]
use crate::mux::decoder;
#[allow(unused_imports)]
use crate::mux::decoder::{DecodeEventView, DecoderView};
use crate::mux::frame::{copy_bytes, Frame, FrameType, FrameView};
#[allow(unused_imports)]
use crate::text;
use crate::text::{push_decimal, push_text};
use std::collections::BTreeMap;
use vstd::prelude::*;
use vstd::string::*;

verus! {

/// One millisecond in nanoseconds.
pub const MILLISECOND: u64 = 1_000_000;

/// One second in nanoseconds.
pub const SECOND: u64 = 1_000_000_000;

/// Where a channel stands. `attempts` counts the requests sent so far.
#[derive(Debug, Clone, Copy, PartialEq, Eq, Structural)]
pub enum DlcState {
    Closed,
    Opening { attempts: u8 },
    Open,
    Closing { attempts: u8 },
    Failed,
}

/// What the caller is to do.
#[derive(Debug)]
pub enum Action {
    /// Send this frame.
    Send(Frame),
    /// The channel is open.
    Opened(u8),
    /// The channel could not be opened, with the reason.
    Failed(u8, String),
    /// The channel is closed.
    Closed(u8),
    /// User data came in on the channel.
    Data(u8, Vec<u8>),
    /// A control message came in; `true` for a command.
    Control(ControlMessage, bool),
}

/// What an [`Action`] holds.
#[verifier::ext_equal]
pub enum ActionView {
    Send(FrameView),
    Opened(u8),
    Failed(u8, Seq<char>),
    Closed(u8),
    Data(u8, Seq<u8>),
    Control(ControlView, bool),
}

impl View for Action {
    type V = ActionView;

    open spec fn view(&self) -> ActionView {
        match self {
            Action::Send(f) => ActionView::Send(f@),
            Action::Opened(d) => ActionView::Opened(*d),
            Action::Failed(d, why) => ActionView::Failed(*d, why@),
            Action::Closed(d) => ActionView::Closed(*d),
            Action::Data(d, bytes) => ActionView::Data(*d, bytes@),
            Action::Control(m, is_command) => ActionView::Control(m@, *is_command),
        }
    }
}

impl Clone for Action {
    fn clone(&self) -> (a: Self)
        ensures
            a@ == self@,
    {
        match self {
            Action::Send(f) => Action::Send(f.clone()),
            Action::Opened(d) => Action::Opened(*d),
            Action::Failed(d, why) => Action::Failed(*d, why.clone()),
            Action::Closed(d) => Action::Closed(*d),
            Action::Data(d, bytes) => Action::Data(*d, copy_bytes(bytes)),
            Action::Control(m, is_command) => Action::Control(m.clone(), *is_command),
        }
    }
}

/// What a list of actions holds.
pub open spec fn action_views(actions: Seq<Action>) -> Seq<ActionView> {
    actions.map_values(|a: Action| a@)
}

/// The channel that an action is about; control messages belong to channel 0.
pub open spec fn channel_of(a: ActionView) -> u8 {
    match a {
        ActionView::Send(f) => f.dlci,
        ActionView::Opened(d) => d,
        ActionView::Failed(d, _) => d,
        ActionView::Closed(d) => d,
        ActionView::Data(d, _) => d,
        ActionView::Control(_, _) => 0,
    }
}

/// How long to wait for an answer, and how often to ask.
#[derive(Debug, Clone, Copy)]
pub struct SessionConfig {
    /// How long to wait for UA, in nanoseconds.
    pub open_timeout: u64,
    /// How often a request is sent at most, the first time counted.
    pub max_attempts: u8,
}

impl Default for SessionConfig {
    fn default() -> (c: Self)
        ensures
            c.open_timeout == 3 * SECOND,
            c.open_timeout == 3_000_000_000,
            c.max_attempts == 3,
    {
        SessionConfig { open_timeout: 3_000_000_000, max_attempts: 3 }
    }
}

/// A channel: its state, and when to ask again where an answer is awaited.
#[derive(Debug, Clone, Copy, PartialEq, Eq, Structural)]
pub struct Dlc {
    pub state: DlcState,
    pub deadline: Option<u64>,
}

/// The end of a wait that starts now.
pub open spec fn deadline_from(now: u64, timeout: u64) -> u64 {
    if now + timeout > u64::MAX {
        u64::MAX
    } else {
        (now + timeout) as u64
    }
}

/// The reason given when nobody answered.
pub open spec fn timeout_reason(attempts: u8) -> Seq<char> {
    "等待 UA 超时，已重试 "@ + text::decimal(attempts as nat) + " 次"@
}

impl Dlc {
    /// Whether the wait of the channel is over.
    pub open spec fn due(self, now: u64) -> bool {
        self.deadline matches Some(deadline) && now >= deadline
    }

    /// The channel once its deadline was looked at: asked again with a new
    /// deadline, or given up after the last attempt.
    pub open spec fn ticked(self, now: u64, cfg: SessionConfig) -> Dlc {
        if !self.due(now) {
            self
        } else {
            match self.state {
                DlcState::Opening { attempts } => if attempts >= cfg.max_attempts {
                    Dlc { state: DlcState::Failed, deadline: None }
                } else {
                    Dlc {
                        state: DlcState::Opening { attempts: (attempts + 1) as u8 },
                        deadline: Some(deadline_from(now, cfg.open_timeout)),
                    }
                },
                DlcState::Closing { attempts } => if attempts >= cfg.max_attempts {
                    Dlc { state: DlcState::Closed, deadline: None }
                } else {
                    Dlc {
                        state: DlcState::Closing { attempts: (attempts + 1) as u8 },
                        deadline: Some(deadline_from(now, cfg.open_timeout)),
                    }
                },
                _ => Dlc { state: self.state, deadline: None },
            }
        }
    }

    /// What is to be done when the deadline is looked at.
    pub open spec fn tick_action(self, dlci: u8, now: u64, cfg: SessionConfig) -> Option<
        ActionView,
    > {
        if !self.due(now) {
            None
        } else {
            match self.state {
                DlcState::Opening { attempts } => Some(
                    if attempts >= cfg.max_attempts {
                        ActionView::Failed(dlci, timeout_reason(attempts))
                    } else {
                        ActionView::Send(FrameView::sabm(dlci))
                    },
                ),
                DlcState::Closing { attempts } => Some(
                    if attempts >= cfg.max_attempts {
                        ActionView::Closed(dlci)
                    } else {
                        ActionView::Send(FrameView::disc(dlci))
                    },
                ),
                _ => None,
            }
        }
    }

    /// A deadline is set exactly while an answer is awaited.
    pub open spec fn wf(self) -> bool {
        self.deadline is Some <==> self.state is Opening || self.state is Closing
    }
}

/// What a [`Session`] holds.
#[verifier::ext_equal]
pub struct SessionView {
    pub cfg: SessionConfig,
    pub dlcs: Map<u8, Dlc>,
}

impl SessionView {
    /// The state of a channel; one never heard of is closed.
    pub open spec fn state(self, dlci: u8) -> DlcState {
        if self.dlcs.contains_key(dlci) {
            self.dlcs[dlci].state
        } else {
            DlcState::Closed
        }
    }

    /// The session with one channel replaced.
    pub open spec fn with(self, dlci: u8, dlc: Dlc) -> SessionView {
        SessionView { cfg: self.cfg, dlcs: self.dlcs.insert(dlci, dlc) }
    }

    /// A wait for an answer that starts now.
    pub open spec fn waiting(self, state: DlcState, now: u64) -> Dlc {
        Dlc { state, deadline: Some(deadline_from(now, self.cfg.open_timeout)) }
    }

    /// The session after a request to open a channel.
    pub open spec fn opened(self, dlci: u8, now: u64) -> SessionView {
        self.with(dlci, self.waiting(DlcState::Opening { attempts: 1 }, now))
    }

    /// The session after a request to close a channel.
    pub open spec fn closed(self, dlci: u8, now: u64) -> SessionView {
        self.with(dlci, self.waiting(DlcState::Closing { attempts: 1 }, now))
    }

    /// What a request to send data comes to: one UIH frame where the channel is
    /// open or the control channel, else nothing.
    pub open spec fn data_actions(self, dlci: u8, data: Seq<u8>) -> Seq<ActionView> {
        if self.state(dlci) == DlcState::Open || dlci == 0 {
            seq![ActionView::Send(FrameView::uih(dlci, data))]
        } else {
            Seq::empty()
        }
    }

    /// The session after a frame came in.
    pub open spec fn after_frame(self, f: FrameView) -> SessionView {
        let settled = |state: DlcState| Dlc { state, deadline: None };
        match f.ftype {
            FrameType::Ua => match self.state(f.dlci) {
                DlcState::Opening { .. } => self.with(f.dlci, settled(DlcState::Open)),
                DlcState::Closing { .. } => self.with(f.dlci, settled(DlcState::Closed)),
                _ => if self.dlcs.contains_key(f.dlci) {
                    self
                } else {
                    self.with(f.dlci, settled(DlcState::Closed))
                },
            },
            FrameType::Dm => if self.state(f.dlci) is Closing {
                self.with(f.dlci, settled(DlcState::Closed))
            } else {
                self.with(f.dlci, settled(DlcState::Failed))
            },
            FrameType::Disc => if self.dlcs.contains_key(f.dlci) {
                self.with(f.dlci, settled(DlcState::Closed))
            } else {
                self
            },
            FrameType::Uih => self,
            FrameType::Sabm => self,
        }
    }

    /// What is to be done about a frame that came in.
    pub open spec fn frame_actions(self, f: FrameView) -> Seq<ActionView> {
        match f.ftype {
            FrameType::Ua => match self.state(f.dlci) {
                DlcState::Opening { .. } => seq![ActionView::Opened(f.dlci)],
                DlcState::Closing { .. } => seq![ActionView::Closed(f.dlci)],
                _ => Seq::empty(),
            },
            FrameType::Dm => if self.state(f.dlci) is Closing {
                seq![ActionView::Closed(f.dlci)]
            } else {
                seq![ActionView::Failed(f.dlci, "对端返回 DM（拒绝建链）"@)]
            },
            FrameType::Disc => seq![
                ActionView::Send(FrameView::ua(f.dlci)),
                ActionView::Closed(f.dlci),
            ],
            FrameType::Uih => if f.dlci != 0 {
                seq![ActionView::Data(f.dlci, f.info)]
            } else {
                match ControlView::parsed(f.info) {
                    Some((msg, is_command)) => seq![ActionView::Control(msg, is_command)],
                    None => Seq::empty(),
                }
            },
            FrameType::Sabm => seq![ActionView::Send(FrameView::ua(f.dlci))],
        }
    }

    /// The session after every deadline was looked at.
    pub open spec fn ticked(self, now: u64) -> SessionView {
        SessionView {
            cfg: self.cfg,
            dlcs: Map::new(
                |d: u8| self.dlcs.contains_key(d),
                |d: u8| self.dlcs[d].ticked(now, self.cfg),
            ),
        }
    }

    /// What the channels below `n` have to do at their deadlines, in the order
    /// of the channels.
    pub open spec fn tick_actions_below(self, n: nat, now: u64) -> Seq<ActionView>
        decreases n,
    {
        if n == 0 {
            Seq::empty()
        } else {
            let dlci = (n - 1) as u8;
            let before = self.tick_actions_below((n - 1) as nat, now);
            if self.dlcs.contains_key(dlci) {
                match self.dlcs[dlci].tick_action(dlci, now, self.cfg) {
                    Some(action) => before.push(action),
                    None => before,
                }
            } else {
                before
            }
        }
    }

    /// What is to be done when every deadline was looked at.
    pub open spec fn tick_actions(self, now: u64) -> Seq<ActionView> {
        self.tick_actions_below(256, now)
    }

    /// The open channels below `n`, in ascending order.
    pub open spec fn open_below(self, n: nat) -> Seq<u8>
        decreases n,
    {
        if n == 0 {
            Seq::empty()
        } else {
            let before = self.open_below((n - 1) as nat);
            if self.state((n - 1) as u8) == DlcState::Open {
                before.push((n - 1) as u8)
            } else {
                before
            }
        }
    }

    /// Whether every channel is in order.
    pub open spec fn wf(self) -> bool {
        forall|d: u8| #[trigger] self.dlcs.contains_key(d) ==> self.dlcs[d].wf()
    }
}

/// The channels of one multiplexer.
pub struct Session {
    cfg: SessionConfig,
    dlcs: BTreeMap<u8, Dlc>,
}

impl View for Session {
    type V = SessionView;

    closed spec fn view(&self) -> SessionView {
        SessionView { cfg: self.cfg, dlcs: self.dlcs@ }
    }
}

/// A list of one action.
fn one(a: Action) -> (v: Vec<Action>)
    ensures
        action_views(v@) == seq![a@],
{
    let mut v: Vec<Action> = Vec::new();
    v.push(a);
    assert(action_views(v@) =~= seq![a@]);
    v
}

/// Appends an action.
fn push_action(v: &mut Vec<Action>, a: Action)
    ensures
        action_views(final(v)@) == action_views(old(v)@).push(a@),
{
    v.push(a);
    assert(action_views(v@) =~= action_views(old(v)@).push(a@));
}

/// The reason given when nobody answered.
fn timed_out(attempts: u8) -> (s: String)
    ensures
        s@ == timeout_reason(attempts),
{
    let mut s = String::new();
    push_text(&mut s, "等待 UA 超时，已重试 ");
    push_decimal(&mut s, attempts as u64);
    push_text(&mut s, " 次");
    assert(s@ =~= timeout_reason(attempts));
    s
}

impl Session {
    /// A session in which every channel is closed.
    pub fn new(cfg: SessionConfig) -> (s: Session)
        ensures
            s@ == (SessionView { cfg, dlcs: Map::empty() }),
    {
        Session { cfg, dlcs: BTreeMap::new() }
    }

    /// The channel, if it was ever heard of.
    fn dlc(&self, dlci: u8) -> (r: Option<Dlc>)
        ensures
            r == (if self@.dlcs.contains_key(dlci) {
                Some(self@.dlcs[dlci])
            } else {
                None
            }),
    {
        match self.dlcs.get(&dlci) {
            Some(d) => Some(*d),
            None => None,
        }
    }

    /// The state of a channel.
    pub fn state(&self, dlci: u8) -> (s: DlcState)
        ensures
            s == self@.state(dlci),
    {
        match self.dlc(dlci) {
            Some(d) => d.state,
            None => DlcState::Closed,
        }
    }

    /// The channels that are open, in ascending order.
    pub fn open_dlcis(&self) -> (v: Vec<u8>)
        ensures
            v@ == self@.open_below(256),
    {
        let mut v: Vec<u8> = Vec::new();
        for i in 0u16..256
            invariant
                v@ == self@.open_below(i as nat),
        {
            if self.state(i as u8) == DlcState::Open {
                v.push(i as u8);
            }
        }
        v
    }

    /// Asks for a channel to be opened.
    pub fn open(&mut self, dlci: u8, now: u64) -> (acts: Vec<Action>)
        ensures
            final(self)@ == old(self)@.opened(dlci, now),
            action_views(acts@) == seq![ActionView::Send(FrameView::sabm(dlci))],
    {
        let deadline: u64 = now.saturating_add(self.cfg.open_timeout);
        self.dlcs.insert(
            dlci,
            Dlc { state: DlcState::Opening { attempts: 1 }, deadline: Some(deadline) },
        );
        one(Action::Send(Frame::sabm(dlci)))
    }

    /// Asks for a channel to be closed.
    pub fn close(&mut self, dlci: u8, now: u64) -> (acts: Vec<Action>)
        ensures
            final(self)@ == old(self)@.closed(dlci, now),
            action_views(acts@) == seq![ActionView::Send(FrameView::disc(dlci))],
    {
        let deadline: u64 = now.saturating_add(self.cfg.open_timeout);
        self.dlcs.insert(
            dlci,
            Dlc { state: DlcState::Closing { attempts: 1 }, deadline: Some(deadline) },
        );
        one(Action::Send(Frame::disc(dlci)))
    }

    /// Sends data on an open channel, or on the control channel. Nothing comes
    /// back where the channel cannot be used.
    pub fn send_data(&self, dlci: u8, data: Vec<u8>) -> (acts: Vec<Action>)
        ensures
            action_views(acts@) == self@.data_actions(dlci, data@),
    {
        if self.state(dlci) == DlcState::Open || dlci == 0 {
            one(Action::Send(Frame::uih(dlci, data)))
        } else {
            let v: Vec<Action> = Vec::new();
            assert(action_views(v@) =~= Seq::empty());
            v
        }
    }

    /// Takes in a frame. The time has no part in it.
    pub fn on_frame(&mut self, f: &Frame, _now: u64) -> (acts: Vec<Action>)
        ensures
            final(self)@ == old(self)@.after_frame(f@),
            action_views(acts@) == old(self)@.frame_actions(f@),
    {
        let mut acts: Vec<Action> = Vec::new();
        assert(action_views(acts@) =~= Seq::empty());
        match f.ftype {
            FrameType::Ua => {
                let settled = match self.state(f.dlci) {
                    DlcState::Opening { .. } => {
                        push_action(&mut acts, Action::Opened(f.dlci));
                        Some(DlcState::Open)
                    },
                    DlcState::Closing { .. } => {
                        push_action(&mut acts, Action::Closed(f.dlci));
                        Some(DlcState::Closed)
                    },
                    _ => if self.dlc(f.dlci).is_none() {
                        Some(DlcState::Closed)
                    } else {
                        None
                    },
                };
                if let Some(state) = settled {
                    self.dlcs.insert(f.dlci, Dlc { state, deadline: None });
                }
            },
            FrameType::Dm => match self.state(f.dlci) {
                DlcState::Closing { .. } => {
                    self.dlcs.insert(f.dlci, Dlc { state: DlcState::Closed, deadline: None });
                    push_action(&mut acts, Action::Closed(f.dlci));
                },
                _ => {
                    self.dlcs.insert(f.dlci, Dlc { state: DlcState::Failed, deadline: None });
                    let mut why = String::new();
                    push_text(&mut why, "对端返回 DM（拒绝建链）");
                    assert(why@ =~= "对端返回 DM（拒绝建链）"@);
                    push_action(&mut acts, Action::Failed(f.dlci, why));
                },
            },
            FrameType::Disc => {
                push_action(&mut acts, Action::Send(Frame::ua(f.dlci)));
                if self.dlc(f.dlci).is_some() {
                    self.dlcs.insert(f.dlci, Dlc { state: DlcState::Closed, deadline: None });
                }
                push_action(&mut acts, Action::Closed(f.dlci));
            },
            FrameType::Uih => {
                if f.dlci == 0 {
                    if let Some((msg, is_command)) = ControlMessage::parse(f.info.as_slice()) {
                        push_action(&mut acts, Action::Control(msg, is_command));
                    }
                } else {
                    push_action(&mut acts, Action::Data(f.dlci, copy_bytes(&f.info)));
                }
            },
            FrameType::Sabm => {
                push_action(&mut acts, Action::Send(Frame::ua(f.dlci)));
            },
        }
        assert(action_views(acts@) =~= old(self)@.frame_actions(f@));
        acts
    }

    /// Looks at the deadline of one channel.
    fn tick_one(&mut self, dlci: u8, now: u64, acts: &mut Vec<Action>)
        requires
            old(self)@.dlcs.contains_key(dlci),
        ensures
            final(self)@ == old(self)@.with(
                dlci,
                old(self)@.dlcs[dlci].ticked(now, old(self)@.cfg),
            ),
            action_views(final(acts)@) == (match old(self)@.dlcs[dlci].tick_action(
                dlci,
                now,
                old(self)@.cfg,
            ) {
                Some(a) => action_views(old(acts)@).push(a),
                None => action_views(old(acts)@),
            }),
    {
        let d = match self.dlc(dlci) {
            Some(d) => d,
            None => {
                return ;
            },
        };
        let mut next = d;
        if let Some(deadline) = d.deadline {
            if now >= deadline {
                let max: u8 = self.cfg.max_attempts;
                let again: u64 = now.saturating_add(self.cfg.open_timeout);
                match d.state {
                    DlcState::Opening { attempts } => {
                        if attempts >= max {
                            next = Dlc { state: DlcState::Failed, deadline: None };
                            push_action(acts, Action::Failed(dlci, timed_out(attempts)));
                        } else {
                            next = Dlc {
                                state: DlcState::Opening { attempts: attempts + 1 },
                                deadline: Some(again),
                            };
                            push_action(acts, Action::Send(Frame::sabm(dlci)));
                        }
                    },
                    DlcState::Closing { attempts } => {
                        if attempts >= max {
                            next = Dlc { state: DlcState::Closed, deadline: None };
                            push_action(acts, Action::Closed(dlci));
                        } else {
                            next = Dlc {
                                state: DlcState::Closing { attempts: attempts + 1 },
                                deadline: Some(again),
                            };
                            push_action(acts, Action::Send(Frame::disc(dlci)));
                        }
                    },
                    _ => {
                        next = Dlc { state: d.state, deadline: None };
                    },
                }
            }
        }
        self.dlcs.insert(dlci, next);
    }

    /// Looks at every deadline. To be called again and again.
    pub fn tick(&mut self, now: u64) -> (acts: Vec<Action>)
        ensures
            final(self)@ == old(self)@.ticked(now),
            action_views(acts@) == old(self)@.tick_actions(now),
    {
        let mut acts: Vec<Action> = Vec::new();
        assert(action_views(acts@) =~= Seq::empty());
        let ghost start = self@;
        for i in 0u16..256
            invariant
                self@.cfg == start.cfg,
                self@.dlcs.dom() =~= start.dlcs.dom(),
                forall|d: u8| #[trigger]
                    self@.dlcs.contains_key(d) ==> self@.dlcs[d] == (if d < i {
                        start.dlcs[d].ticked(now, start.cfg)
                    } else {
                        start.dlcs[d]
                    }),
                action_views(acts@) == start.tick_actions_below(i as nat, now),
        {
            let dlci: u8 = i as u8;
            if self.dlc(dlci).is_some() {
                self.tick_one(dlci, now, &mut acts);
            }
        }
        assert(self@.dlcs =~= start.ticked(now).dlcs);
        acts
    }
}

/// A request to open is confirmed by UA: the channel is then open, and that is
/// reported once and nothing is sent.
pub proof fn law_open_is_confirmed(s: SessionView, dlci: u8, now: u64, ua: FrameView)
    requires
        ua.ftype == FrameType::Ua,
        ua.dlci == dlci,
    ensures
        s.opened(dlci, now).frame_actions(ua) == seq![ActionView::Opened(dlci)],
        s.opened(dlci, now).after_frame(ua).state(dlci) == DlcState::Open,
{
}

/// A request to close is confirmed by UA, and by DM as well.
pub proof fn law_close_is_confirmed(s: SessionView, dlci: u8, now: u64, answer: FrameView)
    requires
        answer.ftype == FrameType::Ua || answer.ftype == FrameType::Dm,
        answer.dlci == dlci,
    ensures
        s.closed(dlci, now).frame_actions(answer) == seq![ActionView::Closed(dlci)],
        s.closed(dlci, now).after_frame(answer).state(dlci) == DlcState::Closed,
{
}

/// Something that happens to a session.
#[verifier::ext_equal]
pub enum SessionStep {
    Open { dlci: u8, now: u64 },
    Close { dlci: u8, now: u64 },
    Frame(FrameView),
    Tick(u64),
}

impl SessionStep {
    /// Whether it is a request to open or close a channel.
    pub open spec fn requests(self, channel: u8) -> bool {
        match self {
            SessionStep::Open { dlci, .. } => dlci == channel,
            SessionStep::Close { dlci, .. } => dlci == channel,
            _ => false,
        }
    }
}

/// A session after things happened to it, in order.
pub open spec fn after_steps(s: SessionView, steps: Seq<SessionStep>) -> SessionView
    decreases steps.len(),
{
    if steps.len() == 0 {
        s
    } else {
        let before = after_steps(s, steps.drop_last());
        match steps.last() {
            SessionStep::Open { dlci, now } => before.opened(dlci, now),
            SessionStep::Close { dlci, now } => before.closed(dlci, now),
            SessionStep::Frame(f) => before.after_frame(f),
            SessionStep::Tick(now) => before.ticked(now),
        }
    }
}

/// A channel that is at rest stays so until someone asks for something.
proof fn lemma_stays_at_rest(s: SessionView, dlci: u8, steps: Seq<SessionStep>)
    requires
        s.dlcs.contains_key(dlci),
        s.dlcs[dlci] == (Dlc { state: DlcState::Failed, deadline: None }),
        forall|i: int| 0 <= i < steps.len() ==> !(#[trigger] steps[i]).requests(dlci),
    ensures
        ({
            let after = after_steps(s, steps);
            &&& after.dlcs.contains_key(dlci)
            &&& after.dlcs[dlci].deadline is None
            &&& after.state(dlci) == DlcState::Failed || after.state(dlci) == DlcState::Closed
            &&& (forall|i: int|
                0 <= i < steps.len() ==> !(#[trigger] steps[i] matches SessionStep::Frame(f)
                    && f.ftype == FrameType::Disc && f.dlci == dlci)) ==> after.state(dlci)
                == DlcState::Failed
        }),
    decreases steps.len(),
{
    if steps.len() > 0 {
        let less = steps.drop_last();
        assert forall|i: int| 0 <= i < less.len() implies !(#[trigger] less[i]).requests(dlci) by {
            assert(less[i] == steps[i]);
        }
        lemma_stays_at_rest(s, dlci, less);
        assert(!steps[steps.len() - 1].requests(dlci));
        let quiet = forall|i: int|
            0 <= i < steps.len() ==> !(#[trigger] steps[i] matches SessionStep::Frame(f) && f.ftype
                == FrameType::Disc && f.dlci == dlci);
        if quiet {
            assert forall|i: int| 0 <= i < less.len() implies !(
            #[trigger] less[i] matches SessionStep::Frame(f) && f.ftype == FrameType::Disc
                && f.dlci == dlci) by {
                assert(less[i] == steps[i]);
            }
            let last = steps[steps.len() - 1];
            assert(last == steps.last());
        }
    }
}

/// DM refuses at once, unless the channel is being closed: nothing is sent. Whatever
/// happens from then on, until the channel is asked to open or close again, no look at
/// the deadlines asks for anything on it, and it has failed still, unless the peer
/// closes it.
pub proof fn law_refusal_is_final(
    s: SessionView,
    dlci: u8,
    dm: FrameView,
    steps: Seq<SessionStep>,
    later: u64,
)
    requires
        dm.ftype == FrameType::Dm,
        dm.dlci == dlci,
        !(s.state(dlci) is Closing),
        forall|i: int| 0 <= i < steps.len() ==> !(#[trigger] steps[i]).requests(dlci),
    ensures
        s.frame_actions(dm) == seq![ActionView::Failed(dlci, "对端返回 DM（拒绝建链）"@)],
        s.after_frame(dm).state(dlci) == DlcState::Failed,
        ({
            let after = after_steps(s.after_frame(dm), steps);
            &&& forall|i: int|
                0 <= i < after.tick_actions(later).len() ==> channel_of(
                    #[trigger] after.tick_actions(later)[i],
                ) != dlci
            &&& after.state(dlci) == DlcState::Failed || after.state(dlci) == DlcState::Closed
            &&& (forall|i: int|
                0 <= i < steps.len() ==> !(#[trigger] steps[i] matches SessionStep::Frame(f)
                    && f.ftype == FrameType::Disc && f.dlci == dlci)) ==> after.state(dlci)
                == DlcState::Failed
        }),
{
    lemma_stays_at_rest(s.after_frame(dm), dlci, steps);
    lemma_tick_actions(after_steps(s.after_frame(dm), steps), 256, later);
}

/// The actions below `n` come in the order of their channels, and a channel has
/// one exactly when its deadline calls for it.
proof fn lemma_tick_actions(s: SessionView, n: nat, now: u64)
    requires
        n <= 256,
    ensures
        forall|i: int, j: int|
            0 <= i < j < s.tick_actions_below(n, now).len() ==> channel_of(
                #[trigger] s.tick_actions_below(n, now)[i],
            ) < channel_of(#[trigger] s.tick_actions_below(n, now)[j]),
        forall|i: int|
            0 <= i < s.tick_actions_below(n, now).len() ==> {
                let a = #[trigger] s.tick_actions_below(n, now)[i];
                let d = channel_of(a);
                d < n && s.dlcs.contains_key(d) && s.dlcs[d].tick_action(d, now, s.cfg) == Some(a)
            },
        forall|d: u8| #[trigger]
            s.dlcs.contains_key(d) && d < n && s.dlcs[d].tick_action(d, now, s.cfg) is Some
                ==> s.tick_actions_below(n, now).contains(
                s.dlcs[d].tick_action(d, now, s.cfg)->0,
            ),
    decreases n,
{
    if n > 0 {
        let m = (n - 1) as nat;
        lemma_tick_actions(s, m, now);
        let before = s.tick_actions_below(m, now);
        let all = s.tick_actions_below(n, now);
        assert forall|d: u8| #[trigger]
            s.dlcs.contains_key(d) && d < n && s.dlcs[d].tick_action(
                d,
                now,
                s.cfg,
            ) is Some implies all.contains(s.dlcs[d].tick_action(d, now, s.cfg)->0) by {
            let a = s.dlcs[d].tick_action(d, now, s.cfg)->0;
            if d < m {
                let i = choose|i: int| 0 <= i < before.len() && before[i] == a;
                assert(all[i] == a);
            } else {
                assert(all.last() == a);
            }
        }
    }
}

/// A look at the deadlines asks for at most one thing per channel, in ascending
/// order of the channels, and for exactly those channels whose wait is over.
pub proof fn law_tick_in_order(s: SessionView, now: u64)
    ensures
        forall|i: int, j: int|
            0 <= i < j < s.tick_actions(now).len() ==> channel_of(
                #[trigger] s.tick_actions(now)[i],
            ) < channel_of(#[trigger] s.tick_actions(now)[j]),
        forall|a: ActionView| #[trigger]
            s.tick_actions(now).contains(a) <==> s.dlcs.contains_key(channel_of(a)) && s.dlcs[
                channel_of(a)
            ].tick_action(channel_of(a), now, s.cfg) == Some(a),
{
    lemma_tick_actions(s, 256, now);
}

/// Before any deadline a look at them changes nothing and asks for nothing.
pub proof fn law_nothing_before_deadline(s: SessionView, now: u64)
    requires
        forall|d: u8| #[trigger] s.dlcs.contains_key(d) ==> !s.dlcs[d].due(now),
    ensures
        s.ticked(now) == s,
        s.tick_actions(now) == Seq::<ActionView>::empty(),
{
    lemma_tick_actions(s, 256, now);
    assert(s.ticked(now).dlcs =~= s.dlcs);
    assert(s.tick_actions(now).len() == 0) by {
        if s.tick_actions(now).len() > 0 {
            let a = s.tick_actions(now)[0];
            assert(s.tick_actions_below(256, now)[0] == a);
        }
    }
}

/// A session after looks at the deadlines at the given times.
pub open spec fn after_ticks(s: SessionView, times: Seq<u64>) -> SessionView
    decreases times.len(),
{
    if times.len() == 0 {
        s
    } else {
        after_ticks(s, times.drop_last()).ticked(times.last())
    }
}

/// Whether each time is past the wait that started at the one before, the first
/// past the wait that started at `start`.
pub open spec fn each_too_late(times: Seq<u64>, start: u64, timeout: u64) -> bool {
    forall|i: int|
        0 <= i < times.len() ==> #[trigger] times[i] >= deadline_from(
            if i == 0 {
                start
            } else {
                times[i - 1]
            },
            timeout,
        )
}

/// How often a request is sent when nobody answers.
pub open spec fn sendings(cfg: SessionConfig) -> nat {
    if cfg.max_attempts == 0 {
        1
    } else {
        cfg.max_attempts as nat
    }
}

/// Nobody answers a request to open: the request is sent as often as the limit
/// says, the first time counted; at the next deadline the channel has failed, and
/// from then on nothing more is asked for.
pub proof fn law_unanswered_open_gives_up(
    s: SessionView,
    dlci: u8,
    start: u64,
    times: Seq<u64>,
    now: u64,
)
    requires
        each_too_late(times.push(now), start, s.cfg.open_timeout),
    ensures
        ({
            let waited = after_ticks(s.opened(dlci, start), times);
            let n = times.len() + 1;
            &&& waited.dlcs.contains_key(dlci)
            &&& waited.state(dlci) == (if n <= sendings(s.cfg) {
                DlcState::Opening { attempts: n as u8 }
            } else {
                DlcState::Failed
            })
            &&& waited.dlcs[dlci].tick_action(dlci, now, waited.cfg) == (if n < sendings(s.cfg) {
                Some(ActionView::Send(FrameView::sabm(dlci)))
            } else if n == sendings(s.cfg) {
                Some(ActionView::Failed(dlci, timeout_reason(n as u8)))
            } else {
                None
            })
        }),
{
    lemma_earlier_too_late(times, now, start, s.cfg.open_timeout);
    lemma_unanswered(s, true, dlci, start, times);
    assert(times.push(now)[times.len() as int] == now);
    if times.len() > 0 {
        assert(times.push(now)[times.len() - 1] == times.last());
    }
}

/// Nobody answers a request to close: it is sent as often as the limit says; at
/// the next deadline the channel counts as closed, and from then on nothing more
/// is asked for.
pub proof fn law_unanswered_close_gives_up(
    s: SessionView,
    dlci: u8,
    start: u64,
    times: Seq<u64>,
    now: u64,
)
    requires
        each_too_late(times.push(now), start, s.cfg.open_timeout),
    ensures
        ({
            let waited = after_ticks(s.closed(dlci, start), times);
            let n = times.len() + 1;
            &&& waited.dlcs.contains_key(dlci)
            &&& waited.state(dlci) == (if n <= sendings(s.cfg) {
                DlcState::Closing { attempts: n as u8 }
            } else {
                DlcState::Closed
            })
            &&& waited.dlcs[dlci].tick_action(dlci, now, waited.cfg) == (if n < sendings(s.cfg) {
                Some(ActionView::Send(FrameView::disc(dlci)))
            } else if n == sendings(s.cfg) {
                Some(ActionView::Closed(dlci))
            } else {
                None
            })
        }),
{
    lemma_earlier_too_late(times, now, start, s.cfg.open_timeout);
    lemma_unanswered(s, false, dlci, start, times);
    assert(times.push(now)[times.len() as int] == now);
    if times.len() > 0 {
        assert(times.push(now)[times.len() - 1] == times.last());
    }
}

/// Leaving out the last time keeps the others too late.
proof fn lemma_earlier_too_late(times: Seq<u64>, now: u64, start: u64, timeout: u64)
    ensures
        each_too_late(times.push(now), start, timeout) ==> each_too_late(times, start, timeout),
{
    if each_too_late(times.push(now), start, timeout) {
        assert forall|i: int| 0 <= i < times.len() implies #[trigger] times[i] >= deadline_from(
            if i == 0 {
                start
            } else {
                times[i - 1]
            },
            timeout,
        ) by {
            assert(times.push(now)[i] == times[i]);
            assert(i > 0 ==> times.push(now)[i - 1] == times[i - 1]);
        }
    }
}

/// A channel whose request went out for the `n`th time at `since` and was not answered;
/// given up where it would have gone out too often.
spec fn unanswered(cfg: SessionConfig, opening: bool, n: nat, since: u64) -> Dlc {
    if n <= sendings(cfg) {
        Dlc {
            state: if opening {
                DlcState::Opening { attempts: n as u8 }
            } else {
                DlcState::Closing { attempts: n as u8 }
            },
            deadline: Some(deadline_from(since, cfg.open_timeout)),
        }
    } else {
        Dlc {
            state: if opening {
                DlcState::Failed
            } else {
                DlcState::Closed
            },
            deadline: None,
        }
    }
}

/// One more look at its deadline, when that is over.
proof fn lemma_still_unanswered(cfg: SessionConfig, opening: bool, n: nat, since: u64, now: u64)
    requires
        n >= 1,
        now >= deadline_from(since, cfg.open_timeout),
    ensures
        unanswered(cfg, opening, n, since).ticked(now, cfg) == unanswered(
            cfg,
            opening,
            n + 1,
            now,
        ),
{
}

/// The channel while nobody answers.
proof fn lemma_unanswered(s: SessionView, opening: bool, dlci: u8, start: u64, times: Seq<u64>)
    requires
        each_too_late(times, start, s.cfg.open_timeout),
    ensures
        ({
            let waited = after_ticks(
                s.with(dlci, unanswered(s.cfg, opening, 1, start)),
                times,
            );
            &&& waited.cfg == s.cfg
            &&& waited.dlcs.contains_key(dlci)
            &&& waited.dlcs[dlci] == unanswered(
                s.cfg,
                opening,
                times.len() + 1,
                if times.len() == 0 {
                    start
                } else {
                    times.last()
                },
            )
        }),
    decreases times.len(),
{
    if times.len() > 0 {
        let less = times.drop_last();
        let since = if less.len() == 0 {
            start
        } else {
            less.last()
        };
        lemma_earlier_too_late(less, times.last(), start, s.cfg.open_timeout);
        assert(less.push(times.last()) =~= times);
        lemma_unanswered(s, opening, dlci, start, less);
        assert(times[times.len() - 1] == times.last());
        if less.len() > 0 {
            assert(times[times.len() - 2] == less.last());
        }
        lemma_still_unanswered(s.cfg, opening, times.len(), since, times.last());
    }
}

/// What happens on one channel leaves every other channel as it was, and asks
/// for nothing that concerns another channel.
pub proof fn law_channels_are_independent(
    s: SessionView,
    dlci: u8,
    other: u8,
    now: u64,
    f: FrameView,
)
    requires
        other != dlci,
        f.dlci == dlci,
    ensures
        s.opened(dlci, now).state(other) == s.state(other),
        s.closed(dlci, now).state(other) == s.state(other),
        s.after_frame(f).state(other) == s.state(other),
        forall|i: int|
            0 <= i < s.frame_actions(f).len() ==> channel_of(#[trigger] s.frame_actions(f)[i])
                == dlci,
{
}

/// A deadline is set exactly while an answer is awaited, whatever happens.
pub proof fn law_session_keeps_wf(s: SessionView, dlci: u8, now: u64, f: FrameView)
    requires
        s.wf(),
    ensures
        s.opened(dlci, now).wf(),
        s.closed(dlci, now).wf(),
        s.after_frame(f).wf(),
        s.ticked(now).wf(),
{
}

/// The list of open channels holds each open channel once, in ascending order,
/// and no other.
pub proof fn law_open_channels_listed(s: SessionView, n: nat)
    requires
        n <= 256,
    ensures
        forall|i: int, j: int|
            0 <= i < j < s.open_below(n).len() ==> #[trigger] s.open_below(n)[i]
                < #[trigger] s.open_below(n)[j],
        forall|d: u8| #[trigger]
            s.open_below(n).contains(d) <==> d < n && s.state(d) == DlcState::Open,
    decreases n,
{
    if n > 0 {
        let m = (n - 1) as nat;
        law_open_channels_listed(s, m);
        let before = s.open_below(m);
        let all = s.open_below(n);
        assert forall|i: int| 0 <= i < before.len() implies before[i] < m by {
            assert(before.contains(before[i]));
        }
        assert forall|d: u8| #[trigger] all.contains(d) <==> d < n && s.state(d)
            == DlcState::Open by {
            if all.contains(d) && all != before {
                let i = choose|i: int| 0 <= i < all.len() && all[i] == d;
                if i < before.len() {
                    assert(before.contains(before[i]));
                }
            }
            if d < m && s.state(d) == DlcState::Open {
                assert(before.contains(d));
                let i = choose|i: int| 0 <= i < before.len() && before[i] == d;
                assert(all[i] == d);
            }
            if d == m && s.state(d) == DlcState::Open {
                assert(all.last() == d);
            }
        }
    }
}

/// User data handed over for an open channel arrives at a peer whose decoder has
/// seen nothing yet: the bytes on the wire decode to one frame, and the frame is
/// reported as that data on that channel.
pub proof fn law_data_reaches_the_peer(
    s: SessionView,
    peer: SessionView,
    dlci: u8,
    data: Seq<u8>,
    max_info: nat,
)
    requires
        s.state(dlci) == DlcState::Open,
        dlci != 0,
        decoder::decodable(FrameView::uih(dlci, data), max_info),
    ensures
        s.data_actions(dlci, data) == seq![ActionView::Send(FrameView::uih(dlci, data))],
        DecoderView::initial(max_info).run(FrameView::uih(dlci, data).wire()).1 == seq![
            DecodeEventView::Frame(FrameView::uih(dlci, data)),
        ],
        peer.frame_actions(FrameView::uih(dlci, data)) == seq![ActionView::Data(dlci, data)],
        peer.after_frame(FrameView::uih(dlci, data)) == peer,
{
    decoder::law_frame_roundtrip(DecoderView::initial(max_info), FrameView::uih(dlci, data));
    assert(DecoderView::initial(max_info).run(FrameView::uih(dlci, data).wire()).1 =~= seq![
        DecodeEventView::Frame(FrameView::uih(dlci, data)),
    ]);
}

/// Whether an action is about a channel.
pub open spec fn concerns(a: ActionView, dlci: u8) -> bool {
    match a {
        ActionView::Send(f) => f.dlci == dlci,
        ActionView::Opened(d) => d == dlci,
        ActionView::Failed(d, _) => d == dlci,
        ActionView::Closed(d) => d == dlci,
        ActionView::Data(d, _) => d == dlci,
        ActionView::Control(_, _) => dlci == 0,
    }
}

/// Whether a look at the deadlines leaves a channel alone: it stays as it is, and
/// nothing is asked for on it.
pub open spec fn left_alone(s: SessionView, dlci: u8, t: u64) -> bool {
    &&& s.ticked(t).state(dlci) == s.state(dlci)
    &&& s.ticked(t).dlcs.contains_key(dlci) == s.dlcs.contains_key(dlci)
    &&& s.dlcs.contains_key(dlci) ==> s.ticked(t).dlcs[dlci] == s.dlcs[dlci]
    &&& forall|i: int|
        0 <= i < s.tick_actions(t).len() ==> !concerns(#[trigger] s.tick_actions(t)[i], dlci)
}

/// What a look at the deadlines does about a request that was sent `n` times and whose
/// wait is over: it is sent once more, or given up where it was sent as often as it may
/// be. A request to open then has failed, for the reason that it was sent `n` times; one
/// to close has come to its end. That is all that is asked for on the channel.
pub open spec fn asked_again(s: SessionView, opening: bool, dlci: u8, n: u8, t: u64) -> bool {
    let again = n < s.cfg.max_attempts;
    let acts = s.tick_actions(t);
    &&& s.ticked(t).state(dlci) == (if opening {
        if again {
            DlcState::Opening { attempts: (n + 1) as u8 }
        } else {
            DlcState::Failed
        }
    } else {
        if again {
            DlcState::Closing { attempts: (n + 1) as u8 }
        } else {
            DlcState::Closed
        }
    })
    &&& acts.contains(
        if again {
            ActionView::Send(
                if opening {
                    FrameView::sabm(dlci)
                } else {
                    FrameView::disc(dlci)
                },
            )
        } else if opening {
            ActionView::Failed(dlci, "等待 UA 超时，已重试 "@ + text::decimal(n as nat) + " 次"@)
        } else {
            ActionView::Closed(dlci)
        },
    )
    &&& forall|i: int, j: int|
        0 <= i < j < acts.len() ==> !(concerns(#[trigger] acts[i], dlci) && concerns(
            #[trigger] acts[j],
            dlci,
        ))
}

/// A look at the deadlines asks for what one channel has to do, and for nothing else on
/// that channel.
proof fn lemma_one_channel(s: SessionView, dlci: u8, t: u64)
    ensures
        s.dlcs.contains_key(dlci) ==> s.ticked(t).dlcs.contains_key(dlci) && s.ticked(
            t,
        ).dlcs[dlci] == s.dlcs[dlci].ticked(t, s.cfg),
        !s.dlcs.contains_key(dlci) ==> !s.ticked(t).dlcs.contains_key(dlci),
        forall|i: int|
            0 <= i < s.tick_actions(t).len() && concerns(#[trigger] s.tick_actions(t)[i], dlci)
                ==> s.dlcs.contains_key(dlci) && s.dlcs[dlci].tick_action(dlci, t, s.cfg) == Some(
                s.tick_actions(t)[i],
            ),
        s.dlcs.contains_key(dlci) && s.dlcs[dlci].tick_action(dlci, t, s.cfg) is Some
            ==> s.tick_actions(t).contains(s.dlcs[dlci].tick_action(dlci, t, s.cfg)->0),
        forall|i: int, j: int|
            0 <= i < j < s.tick_actions(t).len() ==> !(concerns(
                #[trigger] s.tick_actions(t)[i],
                dlci,
            ) && concerns(#[trigger] s.tick_actions(t)[j], dlci)),
{
    lemma_tick_actions(s, 256, t);
    let acts = s.tick_actions(t);
    assert forall|i: int| 0 <= i < acts.len() implies (concerns(#[trigger] acts[i], dlci) <==>
        channel_of(acts[i]) == dlci) by {}
}

/// After a request to open or close a channel nothing happens on it for as long as the
/// wait for an answer is set: a look at the deadlines that comes sooner leaves the
/// channel alone, and one that does not asks again or gives up. (The last moment of the
/// clock ends every wait.)
pub proof fn law_request_waits_its_time(
    s: SessionView,
    opening: bool,
    dlci: u8,
    now: u64,
    t: u64,
)
    ensures
        ({
            let asked = if opening {
                s.opened(dlci, now)
            } else {
                s.closed(dlci, now)
            };
            &&& asked.cfg == s.cfg
            &&& asked.state(dlci) == (if opening {
                DlcState::Opening { attempts: 1 }
            } else {
                DlcState::Closing { attempts: 1 }
            })
            &&& t - now < s.cfg.open_timeout && t < u64::MAX ==> left_alone(asked, dlci, t)
            &&& t - now >= s.cfg.open_timeout ==> asked_again(asked, opening, dlci, 1, t)
        }),
{
    let asked = if opening {
        s.opened(dlci, now)
    } else {
        s.closed(dlci, now)
    };
    lemma_one_channel(asked, dlci, t);
}

/// The same holds after every repetition of a request: it is sent again at the time of
/// the look that found the wait over, and the wait starts anew from there.
pub proof fn law_repetition_waits_its_time(
    s: SessionView,
    opening: bool,
    dlci: u8,
    n: u8,
    now: u64,
    t: u64,
)
    requires
        s.wf(),
        n < s.cfg.max_attempts,
        s.state(dlci) == (if opening {
            DlcState::Opening { attempts: n }
        } else {
            DlcState::Closing { attempts: n }
        }),
        !left_alone(s, dlci, now),
    ensures
        asked_again(s, opening, dlci, n, now),
        s.ticked(now).cfg == s.cfg,
        t - now < s.cfg.open_timeout && t < u64::MAX ==> left_alone(s.ticked(now), dlci, t),
        t - now >= s.cfg.open_timeout ==> asked_again(
            s.ticked(now),
            opening,
            dlci,
            (n + 1) as u8,
            t,
        ),
{
    lemma_one_channel(s, dlci, now);
    lemma_one_channel(s.ticked(now), dlci, t);
}

/// A channel on which no answer is awaited is left alone by every look at the
/// deadlines.
pub proof fn law_channel_at_rest_is_left_alone(s: SessionView, dlci: u8, t: u64)
    requires
        s.wf(),
        s.state(dlci) == DlcState::Closed || s.state(dlci) == DlcState::Open || s.state(dlci)
            == DlcState::Failed,
    ensures
        left_alone(s, dlci, t),
{
    lemma_one_channel(s, dlci, t);
}

/// What the frames of the peer come to. UA confirms the request that is waiting, and
/// means nothing where none is. DM refuses, or ends a channel that is being closed. DISC
/// is answered with UA and closes the channel. SABM is answered with UA and changes
/// nothing. UIH hands its data on, all of it and as it is.
pub proof fn law_frames_of_the_peer(s: SessionView, f: FrameView)
    ensures
        f.ftype == FrameType::Ua ==> match s.state(f.dlci) {
            DlcState::Opening { .. } => {
                &&& s.frame_actions(f) == seq![ActionView::Opened(f.dlci)]
                &&& s.after_frame(f).state(f.dlci) == DlcState::Open
            },
            DlcState::Closing { .. } => {
                &&& s.frame_actions(f) == seq![ActionView::Closed(f.dlci)]
                &&& s.after_frame(f).state(f.dlci) == DlcState::Closed
            },
            _ => {
                &&& s.frame_actions(f).len() == 0
                &&& s.after_frame(f).state(f.dlci) == s.state(f.dlci)
            },
        },
        f.ftype == FrameType::Dm ==> match s.state(f.dlci) {
            DlcState::Closing { .. } => {
                &&& s.frame_actions(f) == seq![ActionView::Closed(f.dlci)]
                &&& s.after_frame(f).state(f.dlci) == DlcState::Closed
            },
            _ => {
                &&& s.frame_actions(f).len() == 1
                &&& s.frame_actions(f)[0] matches ActionView::Failed(d, why) && d == f.dlci && why
                    == "对端返回 DM（拒绝建链）"@
                &&& s.after_frame(f).state(f.dlci) == DlcState::Failed
            },
        },
        f.ftype == FrameType::Disc ==> {
            &&& s.frame_actions(f).len() == 2
            &&& s.frame_actions(f)[0] matches ActionView::Send(ua) && ua.ftype == FrameType::Ua
                && ua.dlci == f.dlci && ua.cr && ua.pf && ua.info.len() == 0
            &&& s.frame_actions(f)[1] == ActionView::Closed(f.dlci)
            &&& s.after_frame(f).state(f.dlci) == DlcState::Closed
        },
        f.ftype == FrameType::Sabm ==> {
            &&& s.frame_actions(f).len() == 1
            &&& s.frame_actions(f)[0] matches ActionView::Send(ua) && ua.ftype == FrameType::Ua
                && ua.dlci == f.dlci && ua.cr && ua.pf && ua.info.len() == 0
            &&& s.after_frame(f) == s
        },
        f.ftype == FrameType::Uih ==> s.after_frame(f) == s && (f.dlci != 0 ==> s.frame_actions(f)
            == seq![ActionView::Data(f.dlci, f.info)]) && (f.dlci == 0 ==> s.frame_actions(f) == (
        match ControlView::parsed(f.info) {
            Some((msg, is_command)) => seq![ActionView::Control(msg, is_command)],
            None => Seq::empty(),
        })),
        s.after_frame(f).cfg == s.cfg,
        forall|d: u8|
            d != f.dlci ==> (s.after_frame(f).dlcs.contains_key(d) == #[trigger] s.dlcs.contains_key(
                d,
            )) && (s.dlcs.contains_key(d) ==> s.after_frame(f).dlcs[d] == s.dlcs[d]),
        s.wf() ==> s.after_frame(f).wf(),
{
}

/// Data goes out on an open channel and on the control channel, as one UIH frame with
/// just that data, and nowhere else.
pub proof fn law_data_needs_an_open_channel(s: SessionView, dlci: u8, data: Seq<u8>)
    ensures
        dlci == 0 || s.state(dlci) == DlcState::Open ==> {
            &&& s.data_actions(dlci, data).len() == 1
            &&& s.data_actions(dlci, data)[0] matches ActionView::Send(f) && f.ftype
                == FrameType::Uih && f.dlci == dlci && f.cr && !f.pf && f.info == data
        },
        dlci != 0 && s.state(dlci) != DlcState::Open ==> s.data_actions(dlci, data).len() == 0,
{
}

/// A request to open or close one channel changes that channel alone.
pub proof fn law_requests_change_one_channel(s: SessionView, dlci: u8, other: u8, now: u64)
    requires
        other != dlci,
    ensures
        s.opened(dlci, now).dlcs.contains_key(other) == s.dlcs.contains_key(other),
        s.closed(dlci, now).dlcs.contains_key(other) == s.dlcs.contains_key(other),
        s.dlcs.contains_key(other) ==> s.opened(dlci, now).dlcs[other] == s.dlcs[other]
            && s.closed(dlci, now).dlcs[other] == s.dlcs[other],
{
}

} // verus!
