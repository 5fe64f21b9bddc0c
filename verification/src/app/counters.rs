//! How fast the counters grow, and that nothing makes them go back.
#[allow(unused_imports)]
use crate::app::event::EventView;
#[allow(unused_imports)]
use crate::app::keymap;
#[allow(unused_imports)]
use crate::app::keymap::CommandView;
#[allow(unused_imports)]
use crate::app::record::{Direction, RecordView};
#[allow(unused_imports)]
use crate::app::runtime;
#[allow(unused_imports)]
use crate::app::runtime::RuntimeView;
#[allow(unused_imports)]
use crate::app::state::{AppView, LinkState, RawView};
#[allow(unused_imports)]
use crate::clock::Timestamp;
#[allow(unused_imports)]
use crate::mux::control::ControlView;
#[allow(unused_imports)]
use crate::mux::frame::FrameView;
#[allow(unused_imports)]
use crate::mux::session::{ActionView, DlcState, SessionView};
use vstd::prelude::*;

verus! {

/// More than any event or command adds to a counter of frames or records.
pub const COUNTER_STEP: u64 = 1024;

/// Whether no counter went back and none grew by more than `n`, that of garbage by
/// no more than `bytes`.
pub open spec fn counts_on(a: RuntimeView, b: RuntimeView, n: nat, bytes: nat) -> bool {
    let (s, t) = (a.state.stats, b.state.stats);
    &&& a.state.unrouted <= b.state.unrouted <= a.state.unrouted + n
    &&& s.rx_frames <= t.rx_frames <= s.rx_frames + n
    &&& s.tx_frames <= t.tx_frames <= s.tx_frames + n
    &&& s.fcs_errors <= t.fcs_errors <= s.fcs_errors + n
    &&& s.garbage_bytes <= t.garbage_bytes <= s.garbage_bytes + bytes
}

/// How many bytes of garbage an event brings.
pub open spec fn garbage_in(ev: EventView) -> nat {
    match ev {
        EventView::Garbage(bytes) => bytes.len(),
        _ => 0,
    }
}

/// Whether the counters have room for one more event or command.
pub open spec fn has_room(rt: RuntimeView, bytes: nat) -> bool {
    &&& rt.state.unrouted + COUNTER_STEP <= u64::MAX
    &&& rt.state.stats.rx_frames + COUNTER_STEP <= u64::MAX
    &&& rt.state.stats.tx_frames + COUNTER_STEP <= u64::MAX
    &&& rt.state.stats.fcs_errors + COUNTER_STEP <= u64::MAX
    &&& rt.state.stats.garbage_bytes + bytes <= u64::MAX
}

proof fn lemma_recorded_counts(rt: RuntimeView, rec: RecordView, now: u64)
    ensures
        counts_on(rt, rt.recorded(rec, now), 2, 0),
        counts_on(rt, rt.flushed(), 1, 0),
        counts_on(rt, rt.flushed_if_stale(now), 1, 0),
{
    reveal(RuntimeView::recorded);
    reveal(RuntimeView::flushed);
    reveal(RuntimeView::flushed_if_stale);
    reveal(RuntimeView::emitted);
}

proof fn lemma_sent_counts(rt: RuntimeView, f: FrameView, ts: Timestamp)
    ensures
        counts_on(rt, rt.sent(f, ts), 1, 0),
{
    reveal(RuntimeView::sent);
}

proof fn lemma_applied_counts(rt: RuntimeView, act: ActionView, now: u64, ts: Timestamp)
    ensures
        counts_on(rt, rt.applied(act, now, ts), 2, 0),
{
    reveal(RuntimeView::applied);
    match act {
        ActionView::Send(f) => lemma_sent_counts(rt, f, ts),
        ActionView::Opened(dlci) => {
            let up = rt.state.with_dlc_state(dlci, DlcState::Open);
            lemma_recorded_counts(
                rt.on(AppView { link: LinkState::Up, ..up }),
                RecordView::words(ts, Direction::Info, dlci, "建链成功"@),
                now,
            );
        },
        ActionView::Failed(dlci, why) => lemma_recorded_counts(
            rt.on(rt.state.with_dlc_state(dlci, DlcState::Failed)),
            RecordView::words(ts, Direction::Error, dlci, "建链失败："@ + why),
            now,
        ),
        ActionView::Closed(dlci) => lemma_recorded_counts(
            rt.on(rt.state.with_dlc_state(dlci, DlcState::Closed)),
            RecordView::words(ts, Direction::Info, dlci, "通道已关闭"@),
            now,
        ),
        ActionView::Data(dlci, data) => lemma_recorded_counts(
            rt,
            RecordView::data(ts, Direction::Rx, dlci, data),
            now,
        ),
        ActionView::Control(_, _) => {},
    }
}

proof fn lemma_applied_all_counts(
    rt: RuntimeView,
    acts: Seq<ActionView>,
    now: u64,
    ts: Timestamp,
)
    ensures
        counts_on(rt, rt.applied_all(acts, now, ts), 2 * acts.len(), 0),
    decreases acts.len(),
{
    if acts.len() > 0 {
        lemma_applied_all_counts(rt, acts.drop_last(), now, ts);
        lemma_applied_counts(rt.applied_all(acts.drop_last(), now, ts), acts.last(), now, ts);
    }
}

proof fn lemma_closing_counts(rt: RuntimeView, dlcis: Seq<u8>, now: u64, ts: Timestamp)
    ensures
        counts_on(rt, rt.closing(dlcis, now, ts), 2 * dlcis.len(), 0),
    decreases dlcis.len(),
{
    if dlcis.len() > 0 {
        lemma_closing_counts(rt, dlcis.drop_last(), now, ts);
        let before = rt.closing(dlcis.drop_last(), now, ts);
        lemma_applied_all_counts(
            before.linked(before.session.closed(dlcis.last(), now)),
            seq![ActionView::Send(FrameView::disc(dlcis.last()))],
            now,
            ts,
        );
    }
}

/// At most one thing per channel.
proof fn lemma_few(s: SessionView, n: nat, now: u64)
    ensures
        s.tick_actions_below(n, now).len() <= n,
        s.open_below(n).len() <= n,
    decreases n,
{
    if n > 0 {
        lemma_few(s, (n - 1) as nat, now);
    }
}

/// No event makes a counter go back or grow by as much as a fixed step, that of
/// garbage aside, which grows by the bytes that came. With so much room in the
/// counters an event can be taken in.
pub proof fn law_events_count_slowly(rt: RuntimeView, ev: EventView, now: u64, ts: Timestamp)
    ensures
        counts_on(rt, rt.after_event(ev, now, ts), COUNTER_STEP as nat, garbage_in(ev)),
        has_room(rt, garbage_in(ev)) ==> rt.after_event(ev, now, ts).fits(),
{
    match ev {
        EventView::Frame(f) => {
            let b = rt.counted(1, 0, 0).seen(
                RawView::of_frame(ts, f, false),
            ).linked(rt.session.after_frame(f));
            lemma_applied_all_counts(b, rt.session.frame_actions(f), now, ts);
        },
        EventView::Tick => {
            let rec = RecordView::data(ts, Direction::Rx, 0, Seq::empty());
            lemma_recorded_counts(rt, rec, now);
            lemma_few(rt.session, 256, now);
            lemma_applied_all_counts(
                rt.flushed_if_stale(now).linked(rt.session.ticked(now)),
                rt.session.tick_actions(now),
                now,
                ts,
            );
        },
        _ => {},
    }
}

/// No command makes a counter go back or grow by as much as a fixed step. With so
/// much room in the counters a command can be carried out.
pub proof fn law_commands_count_slowly(rt: RuntimeView, cmd: CommandView, now: u64, ts: Timestamp)
    ensures
        counts_on(rt, rt.after_command(cmd, now, ts), COUNTER_STEP as nat, 0),
        has_room(rt, 0) ==> rt.after_command(cmd, now, ts).fits(),
{
    match cmd {
        CommandView::Send { dlci, bytes } => {
            lemma_recorded_counts(
                rt,
                RecordView::words(ts, Direction::Error, dlci, "通道未建链，无法发送"@),
                now,
            );
            let rec = RecordView::data(ts, Direction::Tx, dlci, bytes);
            lemma_recorded_counts(rt, rec, now);
            lemma_applied_all_counts(
                rt.recorded(rec, now),
                rt.session.data_actions(dlci, bytes),
                now,
                ts,
            );
        },
        CommandView::OpenDlc { dlci, slot } => {
            reveal(RuntimeView::opening);
            let freed = match rt.state.slots[slot as int].dlci {
                Some(existing) if existing != dlci => rt.on(rt.state.unbound(existing)),
                _ => rt,
            };
            let bound = freed.on(
                freed.state.bound_in(dlci, slot as int).with_dlc_state(
                    dlci,
                    DlcState::Opening { attempts: 1 },
                ),
            );
            let rec = RecordView::words(ts, Direction::Info, dlci, "发起建链 (SABM)"@);
            lemma_recorded_counts(bound, rec, now);
            lemma_applied_all_counts(
                bound.recorded(rec, now).linked(rt.session.opened(dlci, now)),
                seq![ActionView::Send(FrameView::sabm(dlci))],
                now,
                ts,
            );
        },
        CommandView::CloseDlc { dlci } => {
            let rec = RecordView::words(ts, Direction::Info, dlci, "请求关闭通道 (DISC)"@);
            lemma_recorded_counts(rt, rec, now);
            lemma_applied_all_counts(
                rt.recorded(rec, now).linked(rt.session.closed(dlci, now)),
                seq![ActionView::Send(FrameView::disc(dlci))],
                now,
                ts,
            );
        },
        CommandView::SendMsc { dlci } => {
            let msg = ControlView::Msc { dlci, signals: runtime::MSC_SIGNALS_READY };
            lemma_sent_counts(
                rt.noticed("已发送 "@ + msg.described()),
                runtime::control_frame(msg),
                ts,
            );
        },
        CommandView::CloseMux => lemma_sent_counts(
            rt.noticed("已发送 CLD，复用即将关闭"@),
            runtime::control_frame(ControlView::Cld),
            ts,
        ),
        _ => {},
    }
}

/// With the same room in the counters whatever comes can be dispatched, and the
/// runtime can be shut down.
pub proof fn law_room_is_enough(rt: RuntimeView, ev: EventView, now: u64, ts: Timestamp)
    requires
        rt.state.wf(),
        has_room(rt, garbage_in(ev)),
    ensures
        rt.dispatched(ev, now, ts).fits(),
        rt.after_shutdown(now, ts).fits(),
{
    law_events_count_slowly(rt, ev, now, ts);
    if let EventView::Key(key) = ev {
        keymap::law_keys_touch_only_the_screen(rt.state, key, 0);
        let (screen, cmd) = keymap::pressed(rt.state, key);
        law_commands_count_slowly(rt.on(screen), cmd, now, ts);
    }
    lemma_few(rt.session, 256, now);
    let rec = RecordView::data(ts, Direction::Rx, 0, Seq::empty());
    lemma_recorded_counts(rt, rec, now);
    let open = rt.session.open_below(256);
    lemma_closing_counts(rt.flushed(), open, now, ts);
    lemma_sent_counts(
        rt.flushed().closing(open, now, ts),
        runtime::control_frame(ControlView::Cld),
        ts,
    );
}

} // verus!
