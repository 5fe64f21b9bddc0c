//! What holds of the runtime as a whole.
#[allow(unused_imports)]
use crate::app::event::{EventView, TxView};
#[allow(unused_imports)]
use crate::app::keymap;
#[allow(unused_imports)]
use crate::app::keymap::CommandView;
#[allow(unused_imports)]
use crate::app::log;
#[allow(unused_imports)]
use crate::app::record::{Direction, RecordView};
#[allow(unused_imports)]
use crate::app::runtime;
#[allow(unused_imports)]
use crate::app::runtime::{EffectView, RuntimeView};
#[allow(unused_imports)]
use crate::app::state;
#[allow(unused_imports)]
use crate::app::state::{AppView, LinkState, RawView, SlotView, SLOT_COUNT};
#[allow(unused_imports)]
use crate::clock::Timestamp;
#[allow(unused_imports)]
use crate::mux::control::ControlView;
#[allow(unused_imports)]
use crate::mux::frame::{FrameType, FrameView};
#[allow(unused_imports)]
use crate::mux::session::{ActionView, DlcState};
#[allow(unused_imports)]
use crate::text;
use vstd::prelude::*;

verus! {

/// The lines of the raw view for the frames among some effects.
pub open spec fn outgoing(effects: Seq<EffectView>, ts: Timestamp) -> Seq<RawView>
    decreases effects.len(),
{
    if effects.len() == 0 {
        Seq::empty()
    } else {
        let before = outgoing(effects.drop_last(), ts);
        match effects.last() {
            EffectView::Transmit(TxView::Frame(f)) => before.push(RawView::of_frame(ts, f, true)),
            _ => before,
        }
    }
}

/// The line of the raw view for what an event brought in.
pub open spec fn incoming(ev: EventView, ts: Timestamp) -> Seq<RawView> {
    match ev {
        EventView::Frame(f) => seq![RawView::of_frame(ts, f, false)],
        EventView::FcsError(raw) => seq![RawView::of_bad(ts, "FCS 不匹配"@, raw)],
        EventView::Garbage(bytes) => seq![
            RawView::of_bad(ts, "无法成帧的 "@ + text::decimal(bytes.len()) + " 字节"@, bytes),
        ],
        _ => Seq::empty(),
    }
}

/// What is to be done outside has only been added to, and the frames among what
/// was added are in the raw view, behind what came in, and are counted as sent.
pub open spec fn mirrors(
    before: RuntimeView,
    after: RuntimeView,
    came: Seq<RawView>,
    ts: Timestamp,
) -> bool {
    let n = before.effects.len() as int;
    let went = outgoing(after.effects.skip(n), ts);
    &&& n <= after.effects.len()
    &&& after.effects.take(n) == before.effects
    &&& after.state.cfg == before.state.cfg
    &&& after.state.raw_log == state::latest(
        before.state.raw_log + came + went,
        before.state.cfg.max_records as nat,
    )
    &&& after.state.stats.tx_frames == before.state.stats.tx_frames + went.len()
}

/// The frames among effects, one list behind the other.
proof fn lemma_outgoing_adds(a: Seq<EffectView>, b: Seq<EffectView>, ts: Timestamp)
    ensures
        outgoing(a + b, ts) == outgoing(a, ts) + outgoing(b, ts),
    decreases b.len(),
{
    if b.len() == 0 {
        assert(a + b =~= a);
        assert(outgoing(a, ts) + outgoing(b, ts) =~= outgoing(a, ts));
    } else {
        lemma_outgoing_adds(a, b.drop_last(), ts);
        assert((a + b).drop_last() =~= a + b.drop_last());
        assert((a + b).last() == b.last());
        assert(outgoing(a + b, ts) =~= outgoing(a, ts) + outgoing(b, ts));
    }
}

/// What was dropped once stays dropped.
proof fn lemma_latest_twice<T>(a: Seq<T>, b: Seq<T>, cap: nat)
    ensures
        state::latest(state::latest(a, cap) + b, cap) == state::latest(a + b, cap),
{
    assert(state::latest(state::latest(a, cap) + b, cap) =~= state::latest(a + b, cap));
}

/// One step behind another.
proof fn lemma_mirrors_chain(
    a: RuntimeView,
    b: RuntimeView,
    c: RuntimeView,
    came: Seq<RawView>,
    ts: Timestamp,
)
    requires
        mirrors(a, b, came, ts),
        mirrors(b, c, Seq::empty(), ts),
    ensures
        mirrors(a, c, came, ts),
{
    let n = a.effects.len() as int;
    let m = b.effects.len() as int;
    let first = b.effects.skip(n);
    let second = c.effects.skip(m);
    assert(c.effects.take(m) == b.effects);
    assert(c.effects.take(n) =~= b.effects.take(n));
    assert(c.effects.skip(n) =~= first + second) by {
        assert forall|i: int| 0 <= i < c.effects.len() - n implies c.effects.skip(n)[i] == (first
            + second)[i] by {
            if i < first.len() {
                assert(c.effects.take(m)[n + i] == b.effects[n + i]);
            }
        }
    }
    lemma_outgoing_adds(first, second, ts);
    let cap = a.state.cfg.max_records as nat;
    let sofar = a.state.raw_log + came + outgoing(first, ts);
    assert(b.state.raw_log + Seq::<RawView>::empty() + outgoing(second, ts) =~= b.state.raw_log
        + outgoing(second, ts));
    lemma_latest_twice(sofar, outgoing(second, ts), cap);
    assert(sofar + outgoing(second, ts) =~= a.state.raw_log + came + (outgoing(first, ts)
        + outgoing(second, ts)));
}

/// Where neither frames nor the raw view are touched.
proof fn lemma_mirrors_quiet(a: RuntimeView, b: RuntimeView, ts: Timestamp)
    requires
        a.effects.len() <= b.effects.len(),
        b.effects.take(a.effects.len() as int) == a.effects,
        outgoing(b.effects.skip(a.effects.len() as int), ts) == Seq::<RawView>::empty(),
        b.state.cfg == a.state.cfg,
        b.state.raw_log == a.state.raw_log,
        b.state.stats.tx_frames == a.state.stats.tx_frames,
        a.state.raw_log.len() <= a.state.cfg.max_records,
    ensures
        mirrors(a, b, Seq::empty(), ts),
{
    assert(a.state.raw_log + Seq::<RawView>::empty() + Seq::<RawView>::empty()
        =~= a.state.raw_log);
}

proof fn lemma_no_effects(a: RuntimeView, ts: Timestamp)
    ensures
        a.effects.take(a.effects.len() as int) == a.effects,
        outgoing(a.effects.skip(a.effects.len() as int), ts) == Seq::<RawView>::empty(),
{
    assert(a.effects.take(a.effects.len() as int) =~= a.effects);
    assert(a.effects.skip(a.effects.len() as int) =~= Seq::empty());
}

/// Effects that are no frames leave the raw view alone.
proof fn lemma_other_effect(a: RuntimeView, e: EffectView, ts: Timestamp)
    requires
        !(e matches EffectView::Transmit(TxView::Frame(_))),
    ensures
        a.effects.push(e).take(a.effects.len() as int) == a.effects,
        outgoing(a.effects.push(e).skip(a.effects.len() as int), ts) == Seq::<RawView>::empty(),
{
    reveal_with_fuel(outgoing, 2);
    assert(a.effects.push(e).take(a.effects.len() as int) =~= a.effects);
    assert(a.effects.push(e).skip(a.effects.len() as int) =~= seq![e]);
    assert(seq![e].drop_last() =~= Seq::empty());
}

proof fn lemma_emitted_mirrors(a: RuntimeView, rec: RecordView, ts: Timestamp)
    requires
        a.state.raw_log.len() <= a.state.cfg.max_records,
    ensures
        mirrors(a, a.emitted(rec), Seq::empty(), ts),
{
    reveal(RuntimeView::emitted);
    lemma_no_effects(a, ts);
    lemma_other_effect(a, EffectView::Log(crate::app::log::entry(rec)), ts);
    lemma_mirrors_quiet(a, a.emitted(rec), ts);
}

proof fn lemma_flushed_mirrors(a: RuntimeView, ts: Timestamp)
    requires
        a.state.raw_log.len() <= a.state.cfg.max_records,
    ensures
        mirrors(a, a.flushed(), Seq::empty(), ts),
{
    reveal(RuntimeView::flushed);
    lemma_no_effects(a, ts);
    match a.pending {
        Some(p) => lemma_emitted_mirrors(RuntimeView { pending: None, ..a }, p.record(), ts),
        None => lemma_mirrors_quiet(a, a, ts),
    }
}

/// A raw view within its limit stays within it.
proof fn lemma_mirrors_bounded(a: RuntimeView, b: RuntimeView, came: Seq<RawView>, ts: Timestamp)
    requires
        mirrors(a, b, came, ts),
    ensures
        b.state.raw_log.len() <= b.state.cfg.max_records,
{
}

proof fn lemma_recorded_mirrors(a: RuntimeView, rec: RecordView, now: u64, ts: Timestamp)
    requires
        a.state.raw_log.len() <= a.state.cfg.max_records,
    ensures
        mirrors(a, a.recorded(rec, now), Seq::empty(), ts),
{
    reveal(RuntimeView::recorded);
    lemma_no_effects(a, ts);
    lemma_mirrors_quiet(a, a, ts);
    lemma_flushed_mirrors(a, ts);
    lemma_emitted_mirrors(a, rec, ts);
    lemma_mirrors_bounded(a, a.flushed(), Seq::empty(), ts);
    lemma_emitted_mirrors(a.flushed(), rec, ts);
    lemma_mirrors_chain(a, a.flushed(), a.flushed().emitted(rec), Seq::empty(), ts);
}

proof fn lemma_sent_mirrors(a: RuntimeView, f: FrameView, ts: Timestamp)
    requires
        a.state.raw_log.len() <= a.state.cfg.max_records,
    ensures
        mirrors(a, a.sent(f, ts), Seq::empty(), ts),
{
    reveal(RuntimeView::sent);
    reveal_with_fuel(outgoing, 2);
    let b = a.sent(f, ts);
    let n = a.effects.len() as int;
    let e = EffectView::Transmit(TxView::Frame(f));
    assert(b.effects.take(n) =~= a.effects);
    assert(b.effects.skip(n) =~= seq![e]);
    assert(seq![e].drop_last() =~= Seq::empty());
    assert(outgoing(seq![e], ts) =~= seq![RawView::of_frame(ts, f, true)]);
    assert(a.state.raw_log + Seq::<RawView>::empty() + outgoing(seq![e], ts)
        =~= a.state.raw_log.push(RawView::of_frame(ts, f, true)));
}

proof fn lemma_applied_mirrors(a: RuntimeView, act: ActionView, now: u64, ts: Timestamp)
    requires
        a.state.raw_log.len() <= a.state.cfg.max_records,
    ensures
        mirrors(a, a.applied(act, now, ts), Seq::empty(), ts),
{
    reveal(RuntimeView::applied);
    lemma_no_effects(a, ts);
    match act {
        ActionView::Send(f) => lemma_sent_mirrors(a, f, ts),
        ActionView::Opened(dlci) => {
            let up = a.on(
                AppView { link: LinkState::Up, ..a.state.with_dlc_state(dlci, DlcState::Open) },
            );
            lemma_mirrors_quiet(a, up, ts);
            let rec = RecordView::words(ts, Direction::Info, dlci, "建链成功"@);
            lemma_recorded_mirrors(up, rec, now, ts);
            lemma_mirrors_chain(a, up, up.recorded(rec, now), Seq::empty(), ts);
        },
        ActionView::Failed(dlci, why) => {
            let down = a.on(a.state.with_dlc_state(dlci, DlcState::Failed));
            lemma_mirrors_quiet(a, down, ts);
            let rec = RecordView::words(ts, Direction::Error, dlci, "建链失败："@ + why);
            lemma_recorded_mirrors(down, rec, now, ts);
            lemma_mirrors_chain(a, down, down.recorded(rec, now), Seq::empty(), ts);
        },
        ActionView::Closed(dlci) => {
            let down = a.on(a.state.with_dlc_state(dlci, DlcState::Closed));
            lemma_mirrors_quiet(a, down, ts);
            let rec = RecordView::words(ts, Direction::Info, dlci, "通道已关闭"@);
            lemma_recorded_mirrors(down, rec, now, ts);
            lemma_mirrors_chain(a, down, down.recorded(rec, now), Seq::empty(), ts);
        },
        ActionView::Data(dlci, data) => lemma_recorded_mirrors(
            a,
            RecordView::data(ts, Direction::Rx, dlci, data),
            now,
            ts,
        ),
        ActionView::Control(msg, is_command) => lemma_mirrors_quiet(
            a,
            a.applied(act, now, ts),
            ts,
        ),
    }
}

proof fn lemma_applied_all_mirrors(
    a: RuntimeView,
    acts: Seq<ActionView>,
    now: u64,
    ts: Timestamp,
)
    requires
        a.state.raw_log.len() <= a.state.cfg.max_records,
    ensures
        mirrors(a, a.applied_all(acts, now, ts), Seq::empty(), ts),
    decreases acts.len(),
{
    if acts.len() == 0 {
        lemma_no_effects(a, ts);
        lemma_mirrors_quiet(a, a, ts);
    } else {
        let b = a.applied_all(acts.drop_last(), now, ts);
        lemma_applied_all_mirrors(a, acts.drop_last(), now, ts);
        lemma_mirrors_bounded(a, b, Seq::empty(), ts);
        lemma_applied_mirrors(b, acts.last(), now, ts);
        lemma_mirrors_chain(a, b, b.applied(acts.last(), now, ts), Seq::empty(), ts);
    }
}

/// Steps that only change the channels or the counters of what came in.
proof fn lemma_linked_mirrors(
    a: RuntimeView,
    b: RuntimeView,
    session: crate::mux::session::SessionView,
    came: Seq<RawView>,
    ts: Timestamp,
)
    requires
        mirrors(a, b, came, ts),
    ensures
        mirrors(a, b.linked(session), came, ts),
{
}

/// Whatever comes in, every frame that is sent and everything that is received
/// stands in the raw view in that order, up to its limit, and every frame sent is
/// counted once.
pub proof fn law_events_are_mirrored(rt: RuntimeView, ev: EventView, now: u64, ts: Timestamp)
    requires
        rt.state.raw_log.len() <= rt.state.cfg.max_records,
    ensures
        mirrors(rt, rt.after_event(ev, now, ts), incoming(ev, ts), ts),
{
    lemma_no_effects(rt, ts);
    let cap = rt.state.cfg.max_records as nat;
    match ev {
        EventView::Frame(f) => {
            let raw = RawView::of_frame(ts, f, false);
            let b = rt.counted(1, 0, 0).seen(raw).linked(rt.session.after_frame(f));
            assert(rt.state.raw_log + incoming(ev, ts) + Seq::<RawView>::empty()
                =~= rt.state.raw_log.push(raw));
            assert(mirrors(rt, b, incoming(ev, ts), ts));
            lemma_applied_all_mirrors(b, rt.session.frame_actions(f), now, ts);
            lemma_mirrors_chain(rt, b, rt.after_event(ev, now, ts), incoming(ev, ts), ts);
        },
        EventView::FcsError(_) => {
            assert(rt.state.raw_log + incoming(ev, ts) + Seq::<RawView>::empty()
                =~= rt.state.raw_log.push(incoming(ev, ts)[0]));
        },
        EventView::Garbage(_) => {
            assert(rt.state.raw_log + incoming(ev, ts) + Seq::<RawView>::empty()
                =~= rt.state.raw_log.push(incoming(ev, ts)[0]));
        },
        EventView::SerialError(_) => lemma_mirrors_quiet(rt, rt.after_event(ev, now, ts), ts),
        EventView::Tick => {
            reveal(RuntimeView::flushed_if_stale);
            let calm = rt.flushed_if_stale(now);
            lemma_flushed_mirrors(rt, ts);
            lemma_mirrors_quiet(rt, rt, ts);
            let b = calm.linked(rt.session.ticked(now));
            lemma_linked_mirrors(rt, calm, rt.session.ticked(now), Seq::empty(), ts);
            lemma_mirrors_bounded(rt, b, Seq::empty(), ts);
            lemma_applied_all_mirrors(b, rt.session.tick_actions(now), now, ts);
            lemma_mirrors_chain(rt, b, rt.after_event(ev, now, ts), Seq::empty(), ts);
        },
        EventView::Key(_) => lemma_mirrors_quiet(rt, rt, ts),
    }
}

proof fn lemma_opening_mirrors(
    rt: RuntimeView,
    dlci: u8,
    slot: usize,
    now: u64,
    ts: Timestamp,
)
    requires
        rt.state.raw_log.len() <= rt.state.cfg.max_records,
    ensures
        mirrors(rt, rt.opening(dlci, slot, now, ts), Seq::empty(), ts),
{
    reveal(RuntimeView::opening);
    lemma_no_effects(rt, ts);
    let freed = match rt.state.slots[slot as int].dlci {
        Some(existing) if existing != dlci => rt.on(rt.state.unbound(existing)),
        _ => rt,
    };
    if freed.state.slot_wanted(dlci, slot as int) is None {
        lemma_mirrors_quiet(rt, rt.opening(dlci, slot, now, ts), ts);
    } else {
        let bound = freed.on(
            freed.state.bound_in(dlci, slot as int).with_dlc_state(
                dlci,
                DlcState::Opening { attempts: 1 },
            ),
        );
        lemma_mirrors_quiet(rt, bound, ts);
        let rec = RecordView::words(ts, Direction::Info, dlci, "发起建链 (SABM)"@);
        lemma_recorded_mirrors(bound, rec, now, ts);
        lemma_mirrors_chain(rt, bound, bound.recorded(rec, now), Seq::empty(), ts);
        let b = bound.recorded(rec, now).linked(rt.session.opened(dlci, now));
        lemma_linked_mirrors(
            rt,
            bound.recorded(rec, now),
            rt.session.opened(dlci, now),
            Seq::empty(),
            ts,
        );
        lemma_mirrors_bounded(rt, b, Seq::empty(), ts);
        let acts = seq![ActionView::Send(FrameView::sabm(dlci))];
        lemma_applied_all_mirrors(b, acts, now, ts);
        lemma_mirrors_chain(rt, b, b.applied_all(acts, now, ts), Seq::empty(), ts);
    }
}

/// Whatever is commanded, every frame that is sent stands in the raw view and is
/// counted once.
pub proof fn law_commands_are_mirrored(rt: RuntimeView, cmd: CommandView, now: u64, ts: Timestamp)
    requires
        rt.state.raw_log.len() <= rt.state.cfg.max_records,
    ensures
        mirrors(rt, rt.after_command(cmd, now, ts), Seq::empty(), ts),
{
    lemma_no_effects(rt, ts);
    let after = rt.after_command(cmd, now, ts);
    match cmd {
        CommandView::Nothing | CommandView::Quit => lemma_mirrors_quiet(rt, after, ts),
        CommandView::Send { dlci, bytes } => {
            if rt.session.state(dlci) != DlcState::Open {
                lemma_recorded_mirrors(
                    rt,
                    RecordView::words(ts, Direction::Error, dlci, "通道未建链，无法发送"@),
                    now,
                    ts,
                );
            } else {
                let rec = RecordView::data(ts, Direction::Tx, dlci, bytes);
                let b = rt.recorded(rec, now);
                lemma_recorded_mirrors(rt, rec, now, ts);
                lemma_mirrors_bounded(rt, b, Seq::empty(), ts);
                lemma_applied_all_mirrors(b, rt.session.data_actions(dlci, bytes), now, ts);
                lemma_mirrors_chain(rt, b, after, Seq::empty(), ts);
            }
        },
        CommandView::OpenDlc { dlci, slot } => lemma_opening_mirrors(rt, dlci, slot, now, ts),
        CommandView::CloseDlc { dlci } => {
            let rec = RecordView::words(ts, Direction::Info, dlci, "请求关闭通道 (DISC)"@);
            let told = rt.recorded(rec, now);
            let b = told.linked(rt.session.closed(dlci, now));
            lemma_recorded_mirrors(rt, rec, now, ts);
            lemma_linked_mirrors(rt, told, rt.session.closed(dlci, now), Seq::empty(), ts);
            lemma_mirrors_bounded(rt, b, Seq::empty(), ts);
            let acts = seq![ActionView::Send(FrameView::disc(dlci))];
            lemma_applied_all_mirrors(b, acts, now, ts);
            lemma_mirrors_chain(rt, b, after, Seq::empty(), ts);
        },
        CommandView::SendMsc { dlci } => {
            let msg = ControlView::Msc { dlci, signals: runtime::MSC_SIGNALS_READY };
            let b = rt.noticed("已发送 "@ + msg.described());
            lemma_mirrors_quiet(rt, b, ts);
            lemma_sent_mirrors(b, runtime::control_frame(msg), ts);
            lemma_mirrors_chain(rt, b, after, Seq::empty(), ts);
        },
        CommandView::CloseMux => {
            let b = rt.noticed("已发送 CLD，复用即将关闭"@);
            lemma_mirrors_quiet(rt, b, ts);
            lemma_sent_mirrors(b, runtime::control_frame(ControlView::Cld), ts);
            lemma_mirrors_chain(rt, b, after, Seq::empty(), ts);
        },
        CommandView::ToggleLog => {
            if rt.logging {
                let b = rt.with_effect(EffectView::FlushLog);
                lemma_other_effect(rt, EffectView::FlushLog, ts);
                lemma_mirrors_quiet(rt, b, ts);
                lemma_other_effect(b, EffectView::CloseLog, ts);
                lemma_mirrors_quiet(b, after, ts);
                lemma_mirrors_chain(rt, b, after, Seq::empty(), ts);
            } else {
                lemma_other_effect(rt, after.effects.last(), ts);
                lemma_mirrors_quiet(rt, after, ts);
            }
        },
    }
}

proof fn lemma_closing_mirrors(rt: RuntimeView, dlcis: Seq<u8>, now: u64, ts: Timestamp)
    requires
        rt.state.raw_log.len() <= rt.state.cfg.max_records,
    ensures
        mirrors(rt, rt.closing(dlcis, now, ts), Seq::empty(), ts),
    decreases dlcis.len(),
{
    if dlcis.len() == 0 {
        lemma_no_effects(rt, ts);
        lemma_mirrors_quiet(rt, rt, ts);
    } else {
        let dlci = dlcis.last();
        let before = rt.closing(dlcis.drop_last(), now, ts);
        lemma_closing_mirrors(rt, dlcis.drop_last(), now, ts);
        let b = before.linked(before.session.closed(dlci, now));
        lemma_linked_mirrors(rt, before, before.session.closed(dlci, now), Seq::empty(), ts);
        lemma_mirrors_bounded(rt, b, Seq::empty(), ts);
        let acts = seq![ActionView::Send(FrameView::disc(dlci))];
        lemma_applied_all_mirrors(b, acts, now, ts);
        lemma_mirrors_chain(rt, b, rt.closing(dlcis, now, ts), Seq::empty(), ts);
    }
}

/// At the end, too, every frame that is sent stands in the raw view and is
/// counted once.
pub proof fn law_shutdown_is_mirrored(rt: RuntimeView, now: u64, ts: Timestamp)
    requires
        rt.state.raw_log.len() <= rt.state.cfg.max_records,
    ensures
        mirrors(rt, rt.after_shutdown(now, ts), Seq::empty(), ts),
{
    let out = rt.flushed();
    lemma_flushed_mirrors(rt, ts);
    lemma_mirrors_bounded(rt, out, Seq::empty(), ts);
    let dlcis = rt.session.open_below(256);
    let shut = out.closing(dlcis, now, ts);
    lemma_closing_mirrors(out, dlcis, now, ts);
    lemma_mirrors_chain(rt, out, shut, Seq::empty(), ts);
    lemma_mirrors_bounded(rt, shut, Seq::empty(), ts);
    let gone = shut.sent(runtime::control_frame(ControlView::Cld), ts);
    lemma_sent_mirrors(shut, runtime::control_frame(ControlView::Cld), ts);
    lemma_mirrors_chain(rt, shut, gone, Seq::empty(), ts);
    lemma_mirrors_bounded(rt, gone, Seq::empty(), ts);
    let logged = if gone.logging {
        gone.with_effect(EffectView::FlushLog)
    } else {
        gone
    };
    lemma_no_effects(gone, ts);
    lemma_other_effect(gone, EffectView::FlushLog, ts);
    lemma_mirrors_quiet(gone, logged, ts);
    lemma_mirrors_chain(rt, gone, logged, Seq::empty(), ts);
    let last = EffectView::Transmit(TxView::Shutdown);
    lemma_other_effect(logged, last, ts);
    lemma_mirrors_quiet(logged, logged.with_effect(last), ts);
    lemma_mirrors_chain(rt, logged, logged.with_effect(last), Seq::empty(), ts);
}

// The order of the screen.

proof fn lemma_emitted_wf(rt: RuntimeView, rec: RecordView)
    requires
        rt.state.wf(),
    ensures
        rt.emitted(rec).state.wf(),
        rt.emitted(rec).session == rt.session,
        rt.emitted(rec).pending == rt.pending,
{
    reveal(RuntimeView::emitted);
    state::law_state_stays_wf(rt.state, 0, DlcState::Closed, rec, arbitrary(), 0, 0);
}

proof fn lemma_flushed_wf(rt: RuntimeView)
    requires
        rt.state.wf(),
    ensures
        rt.flushed().state.wf(),
        rt.flushed().session == rt.session,
        rt.flushed().pending is None,
{
    reveal(RuntimeView::flushed);
    if let Some(p) = rt.pending {
        lemma_emitted_wf(RuntimeView { pending: None, ..rt }, p.record());
    }
}

proof fn lemma_recorded_wf(rt: RuntimeView, rec: RecordView, now: u64)
    requires
        rt.state.wf(),
    ensures
        rt.recorded(rec, now).state.wf(),
        rt.recorded(rec, now).session == rt.session,
{
    reveal(RuntimeView::recorded);
    lemma_emitted_wf(rt, rec);
    lemma_flushed_wf(rt);
    lemma_emitted_wf(rt.flushed(), rec);
}

proof fn lemma_sent_wf(rt: RuntimeView, f: FrameView, ts: Timestamp)
    requires
        rt.state.wf(),
    ensures
        rt.sent(f, ts).state.wf(),
        rt.sent(f, ts).session == rt.session,
{
    reveal(RuntimeView::sent);
    let raw = RawView::of_frame(ts, f, true);
    state::law_state_stays_wf(rt.state, 0, DlcState::Closed, arbitrary(), raw, 0, 0);
}

proof fn lemma_dlc_state_wf(s: AppView, dlci: u8, to: DlcState)
    requires
        s.wf(),
    ensures
        s.with_dlc_state(dlci, to).wf(),
{
    state::law_state_stays_wf(s, dlci, to, arbitrary(), arbitrary(), 0, 0);
}

proof fn lemma_applied_wf(rt: RuntimeView, act: ActionView, now: u64, ts: Timestamp)
    requires
        rt.state.wf(),
    ensures
        rt.applied(act, now, ts).state.wf(),
        rt.applied(act, now, ts).session == rt.session,
{
    reveal(RuntimeView::applied);
    match act {
        ActionView::Send(f) => lemma_sent_wf(rt, f, ts),
        ActionView::Opened(dlci) => {
            lemma_dlc_state_wf(rt.state, dlci, DlcState::Open);
            let up = rt.on(
                AppView { link: LinkState::Up, ..rt.state.with_dlc_state(dlci, DlcState::Open) },
            );
            assert(up.state.wf());
            lemma_recorded_wf(
                up,
                RecordView::words(ts, Direction::Info, dlci, "建链成功"@),
                now,
            );
        },
        ActionView::Failed(dlci, why) => {
            lemma_dlc_state_wf(rt.state, dlci, DlcState::Failed);
            lemma_recorded_wf(
                rt.on(rt.state.with_dlc_state(dlci, DlcState::Failed)),
                RecordView::words(ts, Direction::Error, dlci, "建链失败："@ + why),
                now,
            );
        },
        ActionView::Closed(dlci) => {
            lemma_dlc_state_wf(rt.state, dlci, DlcState::Closed);
            lemma_recorded_wf(
                rt.on(rt.state.with_dlc_state(dlci, DlcState::Closed)),
                RecordView::words(ts, Direction::Info, dlci, "通道已关闭"@),
                now,
            );
        },
        ActionView::Data(dlci, data) => lemma_recorded_wf(
            rt,
            RecordView::data(ts, Direction::Rx, dlci, data),
            now,
        ),
        ActionView::Control(_, _) => {},
    }
}

proof fn lemma_applied_all_wf(rt: RuntimeView, acts: Seq<ActionView>, now: u64, ts: Timestamp)
    requires
        rt.state.wf(),
    ensures
        rt.applied_all(acts, now, ts).state.wf(),
        rt.applied_all(acts, now, ts).session == rt.session,
    decreases acts.len(),
{
    if acts.len() > 0 {
        lemma_applied_all_wf(rt, acts.drop_last(), now, ts);
        lemma_applied_wf(rt.applied_all(acts.drop_last(), now, ts), acts.last(), now, ts);
    }
}

/// The screen stays in order whatever event comes in.
pub proof fn law_events_keep_order(rt: RuntimeView, ev: EventView, now: u64, ts: Timestamp)
    requires
        rt.state.wf(),
    ensures
        rt.after_event(ev, now, ts).state.wf(),
{
    match ev {
        EventView::Frame(f) => {
            let raw = RawView::of_frame(ts, f, false);
            state::law_state_stays_wf(rt.state, 0, DlcState::Closed, arbitrary(), raw, 0, 0);
            let b = rt.counted(1, 0, 0).seen(raw).linked(rt.session.after_frame(f));
            assert(b.state.wf());
            lemma_applied_all_wf(b, rt.session.frame_actions(f), now, ts);
        },
        EventView::Tick => {
            reveal(RuntimeView::flushed_if_stale);
            lemma_flushed_wf(rt);
            let calm = rt.flushed_if_stale(now).linked(rt.session.ticked(now));
            lemma_applied_all_wf(calm, rt.session.tick_actions(now), now, ts);
        },
        EventView::FcsError(_) | EventView::Garbage(_) => {
            state::law_state_stays_wf(
                rt.state,
                0,
                DlcState::Closed,
                arbitrary(),
                incoming(ev, ts)[0],
                0,
                0,
            );
        },
        EventView::SerialError(_) => {
            let after = rt.after_event(ev, now, ts).state;
            assert(after.slots[0] == SlotView { state: DlcState::Closed, ..rt.state.slots[0] });
            assert(after.slots[1] == SlotView { state: DlcState::Closed, ..rt.state.slots[1] });
        },
        EventView::Key(_) => {},
    }
}

/// The screen stays in order whatever is commanded.
pub proof fn law_commands_keep_order(rt: RuntimeView, cmd: CommandView, now: u64, ts: Timestamp)
    requires
        rt.state.wf(),
        cmd matches CommandView::OpenDlc { slot, .. } ==> slot < SLOT_COUNT,
    ensures
        rt.after_command(cmd, now, ts).state.wf(),
{
    match cmd {
        CommandView::Send { dlci, bytes } => {
            lemma_recorded_wf(
                rt,
                RecordView::words(ts, Direction::Error, dlci, "通道未建链，无法发送"@),
                now,
            );
            let rec = RecordView::data(ts, Direction::Tx, dlci, bytes);
            lemma_recorded_wf(rt, rec, now);
            lemma_applied_all_wf(
                rt.recorded(rec, now),
                rt.session.data_actions(dlci, bytes),
                now,
                ts,
            );
        },
        CommandView::OpenDlc { dlci, slot } => {
            reveal(RuntimeView::opening);
            let freed = match rt.state.slots[slot as int].dlci {
                Some(existing) if existing != dlci => {
                    state::law_state_stays_wf(
                        rt.state,
                        existing,
                        DlcState::Closed,
                        arbitrary(),
                        arbitrary(),
                        0,
                        0,
                    );
                    rt.on(rt.state.unbound(existing))
                },
                _ => rt,
            };
            state::law_state_stays_wf(
                freed.state,
                dlci,
                DlcState::Closed,
                arbitrary(),
                arbitrary(),
                0,
                slot,
            );
            let opening = DlcState::Opening { attempts: 1 };
            let placed = freed.state.bound_in(dlci, slot as int);
            lemma_dlc_state_wf(placed, dlci, opening);
            let bound = freed.on(placed.with_dlc_state(dlci, opening));
            let rec = RecordView::words(ts, Direction::Info, dlci, "发起建链 (SABM)"@);
            lemma_recorded_wf(bound, rec, now);
            lemma_applied_all_wf(
                bound.recorded(rec, now).linked(rt.session.opened(dlci, now)),
                seq![ActionView::Send(FrameView::sabm(dlci))],
                now,
                ts,
            );
        },
        CommandView::CloseDlc { dlci } => {
            let rec = RecordView::words(ts, Direction::Info, dlci, "请求关闭通道 (DISC)"@);
            lemma_recorded_wf(rt, rec, now);
            lemma_applied_all_wf(
                rt.recorded(rec, now).linked(rt.session.closed(dlci, now)),
                seq![ActionView::Send(FrameView::disc(dlci))],
                now,
                ts,
            );
        },
        CommandView::SendMsc { dlci } => {
            let msg = ControlView::Msc { dlci, signals: runtime::MSC_SIGNALS_READY };
            lemma_sent_wf(
                rt.noticed("已发送 "@ + msg.described()),
                runtime::control_frame(msg),
                ts,
            );
        },
        CommandView::CloseMux => lemma_sent_wf(
            rt.noticed("已发送 CLD，复用即将关闭"@),
            runtime::control_frame(ControlView::Cld),
            ts,
        ),
        _ => {},
    }
}

/// The screen stays in order whatever comes, keys or anything else.
pub proof fn law_dispatch_keeps_order(rt: RuntimeView, ev: EventView, now: u64, ts: Timestamp)
    requires
        rt.state.wf(),
    ensures
        rt.dispatched(ev, now, ts).state.wf(),
{
    match ev {
        EventView::Key(key) => {
            keymap::law_keys_keep_order(rt.state, key);
            let (screen, cmd) = keymap::pressed(rt.state, key);
            law_commands_keep_order(rt.on(screen), cmd, now, ts);
        },
        _ => law_events_keep_order(rt, ev, now, ts),
    }
}

// Gathering data into records.

/// The data of one direction in some records.
pub open spec fn data_of(records: Seq<RecordView>, dir: Direction) -> Seq<u8>
    decreases records.len(),
{
    if records.len() == 0 {
        Seq::empty()
    } else {
        let before = data_of(records.drop_last(), dir);
        if records.last().note is None && records.last().dir == dir {
            before + records.last().bytes
        } else {
            before
        }
    }
}

/// The data of a channel and direction that is on the screen or being gathered.
pub open spec fn heard(rt: RuntimeView, dlci: u8, dir: Direction) -> Seq<u8> {
    (match rt.state.slot_of(dlci) {
        Some(i) => data_of(rt.state.slots[i as int].records, dir),
        None => Seq::empty(),
    }) + (match rt.pending {
        Some(p) if p.dlci == dlci && p.dir == dir => p.bytes,
        _ => Seq::empty(),
    })
}

/// The data of a record for a channel and direction.
pub open spec fn data_for(rec: RecordView, dlci: u8, dir: Direction) -> Seq<u8> {
    if rec.note is None && rec.dlci == dlci && rec.dir == dir {
        rec.bytes
    } else {
        Seq::empty()
    }
}

/// The lookup of a slot goes by the channels alone.
proof fn lemma_find_same(a: Seq<SlotView>, b: Seq<SlotView>, dlci: Option<u8>, from: nat)
    requires
        a.len() == b.len(),
        forall|i: int| 0 <= i < a.len() ==> (#[trigger] a[i]).dlci == b[i].dlci,
    ensures
        state::find_slot(a, dlci, from) == state::find_slot(b, dlci, from),
    decreases a.len() - from,
{
    if from < a.len() {
        assert(a[from as int].dlci == b[from as int].dlci);
        lemma_find_same(a, b, dlci, from + 1);
    }
}

/// A slot that is found exists and has the channel.
proof fn lemma_found(slots: Seq<SlotView>, dlci: Option<u8>, from: nat)
    ensures
        state::find_slot(slots, dlci, from) matches Some(i) ==> i < slots.len() && slots[i as int].dlci
            == dlci,
    decreases slots.len() - from,
{
    if from < slots.len() {
        lemma_found(slots, dlci, from + 1);
    }
}

/// Handing a record out adds its data to what was heard, and nothing else.
proof fn lemma_emitted_heard(rt: RuntimeView, rec: RecordView, dlci: u8, dir: Direction, i: nat)
    requires
        rt.state.slot_of(dlci) == Some(i),
        rt.state.slots[i as int].records.len() < rt.state.cfg.max_records,
    ensures
        rt.emitted(rec).state.slot_of(dlci) == Some(i),
        rt.emitted(rec).state.cfg == rt.state.cfg,
        rt.emitted(rec).pending == rt.pending,
        rt.emitted(rec).state.slots[i as int].records.len() <= rt.state.slots[i as int].records.len()
            + 1,
        data_of(rt.emitted(rec).state.slots[i as int].records, dir) == data_of(
            rt.state.slots[i as int].records,
            dir,
        ) + data_for(rec, dlci, dir),
{
    reveal(RuntimeView::emitted);
    lemma_found(rt.state.slots, Some(dlci), 0);
    lemma_found(rt.state.slots, Some(rec.dlci), 0);
    let after = rt.emitted(rec).state;
    let old_records = rt.state.slots[i as int].records;
    lemma_find_same(after.slots, rt.state.slots, Some(dlci), 0);
    if rec.dlci == dlci {
        let new_records = after.slots[i as int].records;
        assert(new_records =~= old_records.push(rec));
        assert(new_records.drop_last() =~= old_records);
    }
    assert(data_of(after.slots[i as int].records, dir) =~= data_of(old_records, dir) + data_for(
        rec,
        dlci,
        dir,
    ));
}

/// What was gathered is still heard once it is a record.
proof fn lemma_flushed_heard(rt: RuntimeView, dlci: u8, dir: Direction, i: nat)
    requires
        rt.state.slot_of(dlci) == Some(i),
        rt.state.slots[i as int].records.len() < rt.state.cfg.max_records,
    ensures
        rt.flushed().state.slot_of(dlci) == Some(i),
        rt.flushed().state.cfg == rt.state.cfg,
        rt.flushed().pending is None,
        rt.flushed().state.slots[i as int].records.len() <= rt.state.slots[i as int].records.len()
            + 1,
        heard(rt.flushed(), dlci, dir) == heard(rt, dlci, dir),
        data_of(rt.flushed().state.slots[i as int].records, dir) == heard(rt, dlci, dir),
{
    reveal(RuntimeView::flushed);
    if let Some(p) = rt.pending {
        lemma_emitted_heard(RuntimeView { pending: None, ..rt }, p.record(), dlci, dir, i);
    }
    assert(data_of(rt.flushed().state.slots[i as int].records, dir) =~= heard(rt, dlci, dir));
    assert(heard(rt.flushed(), dlci, dir) =~= heard(rt, dlci, dir));
}

/// Gathering neither loses data nor mixes it up: whatever record comes, what was
/// heard on a channel in a direction grows by exactly the data that the record
/// has for it. This is so as long as the slot has room for what is gathered and
/// for the record, and nothing is left from before gathering was turned off.
pub proof fn law_gathering_loses_nothing(
    rt: RuntimeView,
    rec: RecordView,
    now: u64,
    dlci: u8,
    dir: Direction,
    i: nat,
)
    requires
        rt.state.slot_of(dlci) == Some(i),
        rt.state.slots[i as int].records.len() + 2 <= rt.state.cfg.max_records,
        rt.state.cfg.merge_window == 0 ==> rt.pending is None,
    ensures
        heard(rt.recorded(rec, now), dlci, dir) == heard(rt, dlci, dir) + data_for(rec, dlci, dir),
{
    reveal(RuntimeView::recorded);
    lemma_flushed_heard(rt, dlci, dir, i);
    let after = rt.recorded(rec, now);
    if rec.note is Some {
        lemma_emitted_heard(rt.flushed(), rec, dlci, dir, i);
    } else if rt.state.cfg.merge_window == 0 {
        lemma_emitted_heard(rt, rec, dlci, dir, i);
    }
    assert(heard(after, dlci, dir) =~= heard(rt, dlci, dir) + data_for(rec, dlci, dir));
}

/// What was gathered and then becomes a record is the same data.
pub proof fn law_flushing_keeps_data(rt: RuntimeView, dlci: u8, dir: Direction, i: nat)
    requires
        rt.state.slot_of(dlci) == Some(i),
        rt.state.slots[i as int].records.len() < rt.state.cfg.max_records,
    ensures
        heard(rt.flushed(), dlci, dir) == heard(rt, dlci, dir),
        rt.flushed().pending is None,
{
    lemma_flushed_heard(rt, dlci, dir, i);
}

/// Pieces of one channel and direction that come within the window are one record
/// with the time of the first; nothing is on the screen or in the log until then.
pub proof fn law_pieces_are_gathered(
    rt: RuntimeView,
    first: RecordView,
    second: RecordView,
    now: u64,
    later: u64,
)
    requires
        first.note is None,
        second.note is None,
        rt.pending is None,
        rt.state.cfg.merge_window > 0,
        first.dlci == second.dlci,
        first.dir == second.dir,
        runtime::since(now, later) <= rt.state.cfg.merge_window,
    ensures
        ({
            let both = rt.recorded(first, now).recorded(second, later);
            &&& both == RuntimeView { pending: both.pending, ..rt }
            &&& both.pending matches Some(p) && p.record() == (RecordView {
                bytes: first.bytes + second.bytes,
                ..first
            })
        }),
{
    reveal(RuntimeView::recorded);
    reveal(RuntimeView::flushed);
}

/// Data of another channel, of the other direction, or after the window never
/// joins what was gathered: that becomes a record of its own first.
pub proof fn law_others_stay_apart(
    rt: RuntimeView,
    first: RecordView,
    second: RecordView,
    now: u64,
    later: u64,
)
    requires
        first.note is None,
        second.note is None,
        rt.pending is None,
        rt.state.cfg.merge_window > 0,
        first.dlci != second.dlci || first.dir != second.dir || runtime::since(now, later)
            > rt.state.cfg.merge_window,
    ensures
        ({
            let both = rt.recorded(first, now).recorded(second, later);
            &&& both.state == rt.state.with_record(first)
            &&& both.pending matches Some(p) && p.record() == second
        }),
{
    reveal(RuntimeView::recorded);
    reveal(RuntimeView::flushed);
    reveal(RuntimeView::emitted);
    let gathered = rt.recorded(first, now);
    assert(gathered.pending->0.record() =~= first);
    assert(rt.recorded(first, now).recorded(second, later).pending->0.record() =~= second);
}

/// Words go out behind whatever was gathered before them, and at once.
pub proof fn law_words_keep_their_place(rt: RuntimeView, rec: RecordView, now: u64)
    requires
        rec.note is Some,
    ensures
        rt.recorded(rec, now).pending is None,
        rt.recorded(rec, now).state == (match rt.pending {
            Some(p) => rt.state.with_record(p.record()).with_record(rec),
            None => rt.state.with_record(rec),
        }),
{
    reveal(RuntimeView::recorded);
    reveal(RuntimeView::flushed);
    reveal(RuntimeView::emitted);
}

/// Without a window every piece is on the screen at once.
pub proof fn law_no_window_no_gathering(rt: RuntimeView, rec: RecordView, now: u64)
    requires
        rt.state.cfg.merge_window == 0,
        rt.pending is None,
    ensures
        rt.recorded(rec, now).state == rt.state.with_record(rec),
        rt.recorded(rec, now).pending is None,
{
    reveal(RuntimeView::recorded);
    reveal(RuntimeView::flushed);
    reveal(RuntimeView::emitted);
}

// What goes over the line.

/// Nothing is sent on a channel that is not open: no frame goes out, the channels
/// stay as they are, and the screen says why.
pub proof fn law_send_needs_an_open_channel(
    rt: RuntimeView,
    dlci: u8,
    bytes: Seq<u8>,
    now: u64,
    ts: Timestamp,
)
    requires
        rt.session.state(dlci) != DlcState::Open,
        rt.state.wf(),
    ensures
        ({
            let after = rt.after_command(CommandView::Send { dlci, bytes }, now, ts);
            &&& after.session == rt.session
            &&& after.state.stats.tx_frames == rt.state.stats.tx_frames
            &&& outgoing(after.effects.skip(rt.effects.len() as int), ts) == Seq::<RawView>::empty()
            &&& after == rt.told(Direction::Error, dlci, "通道未建链，无法发送"@, now, ts)
        }),
{
    let rec = RecordView::words(ts, Direction::Error, dlci, "通道未建链，无法发送"@);
    lemma_recorded_wf(rt, rec, now);
    lemma_recorded_mirrors(rt, rec, now, ts);
    reveal(RuntimeView::recorded);
    reveal(RuntimeView::flushed);
    reveal(RuntimeView::emitted);
}

/// On an open channel the data goes out in one frame, whole.
pub proof fn law_send_goes_out(
    rt: RuntimeView,
    dlci: u8,
    bytes: Seq<u8>,
    now: u64,
    ts: Timestamp,
)
    requires
        rt.session.state(dlci) == DlcState::Open,
        rt.state.wf(),
    ensures
        ({
            let after = rt.after_command(CommandView::Send { dlci, bytes }, now, ts);
            &&& after.session == rt.session
            &&& after.state.stats.tx_frames == rt.state.stats.tx_frames + 1
            &&& after.effects.last() == EffectView::Transmit(
                TxView::Frame(FrameView::uih(dlci, bytes)),
            )
            &&& outgoing(after.effects.skip(rt.effects.len() as int), ts) == seq![
                RawView::of_frame(ts, FrameView::uih(dlci, bytes), true),
            ]
        }),
{
    let rec = RecordView::data(ts, Direction::Tx, dlci, bytes);
    let f = FrameView::uih(dlci, bytes);
    let noted = rt.recorded(rec, now);
    lemma_recorded_wf(rt, rec, now);
    lemma_recorded_mirrors(rt, rec, now, ts);
    let after = rt.after_command(CommandView::Send { dlci, bytes }, now, ts);
    let acts = seq![ActionView::Send(f)];
    reveal_with_fuel(RuntimeView::applied_all, 2);
    assert(acts.drop_last() =~= Seq::empty());
    assert(after == noted.applied(ActionView::Send(f), now, ts));
    reveal(RuntimeView::applied);
    lemma_sent_wf(noted, f, ts);
    lemma_recorded_quiet(rt, rec, now, ts);
    law_commands_are_mirrored(rt, CommandView::Send { dlci, bytes }, now, ts);
    reveal(RuntimeView::sent);
    let n = rt.effects.len() as int;
    let e = EffectView::Transmit(TxView::Frame(f));
    assert(after.effects.skip(n) =~= noted.effects.skip(n).push(e));
    assert(noted.effects.skip(n).push(e).drop_last() =~= noted.effects.skip(n));
    assert(outgoing(after.effects.skip(n), ts) =~= seq![RawView::of_frame(ts, f, true)]);
}

/// Records send no frames.
proof fn lemma_recorded_quiet(rt: RuntimeView, rec: RecordView, now: u64, ts: Timestamp)
    requires
        rt.state.raw_log.len() <= rt.state.cfg.max_records,
    ensures
        outgoing(rt.recorded(rec, now).effects.skip(rt.effects.len() as int), ts) == Seq::<
            RawView,
        >::empty(),
        rt.recorded(rec, now).effects.len() >= rt.effects.len(),
        rt.recorded(rec, now).state.stats == rt.state.stats,
{
    lemma_recorded_mirrors(rt, rec, now, ts);
    reveal(RuntimeView::recorded);
    reveal(RuntimeView::flushed);
    reveal(RuntimeView::emitted);
    let went = outgoing(rt.recorded(rec, now).effects.skip(rt.effects.len() as int), ts);
    assert(went.len() == 0);
    assert(went =~= Seq::empty());
}

/// A request to open a channel is never refused. The channel has the slot it was
/// asked into, unless it had one before; what else was in that slot is gone. The
/// link is being opened, and the request for it has been handed out last.
pub proof fn law_opening_takes_the_slot(
    rt: RuntimeView,
    dlci: u8,
    slot: usize,
    now: u64,
    ts: Timestamp,
)
    requires
        rt.state.wf(),
        slot < SLOT_COUNT,
    ensures
        ({
            let after = rt.opening(dlci, slot, now, ts);
            let i = match rt.state.slot_of(dlci) {
                Some(had) => had as int,
                None => slot as int,
            };
            &&& after.state.slots[i].dlci == Some(dlci)
            &&& after.state.slots[i].state == DlcState::Opening { attempts: 1 }
            &&& after.state.slots[slot as int].dlci is None || after.state.slots[slot as int].dlci
                == Some(dlci)
            &&& after.session.state(dlci) == DlcState::Opening { attempts: 1 }
            &&& after.effects.last() == EffectView::Transmit(TxView::Frame(FrameView::sabm(dlci)))
        }),
{
    reveal(RuntimeView::opening);
    let freed = match rt.state.slots[slot as int].dlci {
        Some(existing) if existing != dlci => rt.on(rt.state.unbound(existing)),
        _ => rt,
    };
    let placed = freed.state.bound_in(dlci, slot as int);
    let opening = DlcState::Opening { attempts: 1 };
    state::law_cleared_slot_is_given(rt.state, dlci, slot as int, opening);
    let bound = freed.on(placed.with_dlc_state(dlci, opening));
    let rec = RecordView::words(ts, Direction::Info, dlci, "发起建链 (SABM)"@);
    lemma_recorded_keeps_channels(bound, rec, now, 0);
    lemma_recorded_keeps_channels(bound, rec, now, 1);
    let b = bound.recorded(rec, now).linked(rt.session.opened(dlci, now));
    let acts = seq![ActionView::Send(FrameView::sabm(dlci))];
    reveal_with_fuel(RuntimeView::applied_all, 2);
    assert(acts.drop_last() =~= Seq::empty());
    assert(b.applied_all(acts, now, ts) == b.applied(acts.last(), now, ts));
    reveal(RuntimeView::applied);
    reveal(RuntimeView::sent);
}

/// The answer to a request to open makes the channel open, the line count as up
/// whatever was thought of it before, and sends nothing.
pub proof fn law_answered_channel_is_up(
    rt: RuntimeView,
    dlci: u8,
    ua: FrameView,
    now: u64,
    ts: Timestamp,
    i: nat,
)
    requires
        rt.state.wf(),
        rt.state.slot_of(dlci) == Some(i),
        rt.session.state(dlci) is Opening,
        ua.ftype == FrameType::Ua,
        ua.dlci == dlci,
    ensures
        ({
            let after = rt.after_event(EventView::Frame(ua), now, ts);
            &&& after.session.state(dlci) == DlcState::Open
            &&& after.state.link == LinkState::Up
            &&& after.state.slots[i as int].dlci == Some(dlci)
            &&& after.state.slots[i as int].state == DlcState::Open
            &&& after.state.stats.tx_frames == rt.state.stats.tx_frames
            &&& after.state.stats.rx_frames == rt.state.stats.rx_frames + 1
        }),
{
    let after = rt.after_event(EventView::Frame(ua), now, ts);
    let b = rt.counted(1, 0, 0).seen(RawView::of_frame(ts, ua, false)).linked(
        rt.session.after_frame(ua),
    );
    let acts = rt.session.frame_actions(ua);
    assert(acts =~= seq![ActionView::Opened(dlci)]);
    reveal_with_fuel(RuntimeView::applied_all, 2);
    assert(acts.drop_last() =~= Seq::empty());
    assert(after == b.applied(ActionView::Opened(dlci), now, ts));
    reveal(RuntimeView::applied);
    let up = b.on(AppView { link: LinkState::Up, ..b.state.with_dlc_state(dlci, DlcState::Open) });
    lemma_found(rt.state.slots, Some(dlci), 0);
    assert(b.state.slots == rt.state.slots);
    assert(up.state.slots[i as int].state == DlcState::Open);
    let rec = RecordView::words(ts, Direction::Info, dlci, "建链成功"@);
    lemma_recorded_keeps_channels(up, rec, now, i as int);
}

/// Handing a record out changes no channel and no counter of traffic.
proof fn lemma_emitted_keeps_channels(rt: RuntimeView, rec: RecordView, i: int)
    requires
        0 <= i < rt.state.slots.len(),
    ensures
        ({
            let after = rt.emitted(rec);
            &&& after.session == rt.session
            &&& after.state.link == rt.state.link
            &&& after.state.stats == rt.state.stats
            &&& after.state.slots.len() == rt.state.slots.len()
            &&& after.state.slots[i].dlci == rt.state.slots[i].dlci
            &&& after.state.slots[i].state == rt.state.slots[i].state
        }),
{
    reveal(RuntimeView::emitted);
    lemma_found(rt.state.slots, Some(rec.dlci), 0);
}

/// Records change no channel and no counter of traffic.
proof fn lemma_recorded_keeps_channels(rt: RuntimeView, rec: RecordView, now: u64, i: int)
    requires
        0 <= i < rt.state.slots.len(),
    ensures
        ({
            let after = rt.recorded(rec, now);
            &&& after.session == rt.session
            &&& after.state.link == rt.state.link
            &&& after.state.stats == rt.state.stats
            &&& after.state.slots.len() == rt.state.slots.len()
            &&& after.state.slots[i].dlci == rt.state.slots[i].dlci
            &&& after.state.slots[i].state == rt.state.slots[i].state
        }),
{
    reveal(RuntimeView::recorded);
    reveal(RuntimeView::flushed);
    if let Some(p) = rt.pending {
        lemma_emitted_keeps_channels(RuntimeView { pending: None, ..rt }, p.record(), i);
    }
    lemma_emitted_keeps_channels(rt.flushed(), rec, i);
    lemma_emitted_keeps_channels(rt, rec, i);
}

/// When the line fails no channel counts as open any more, and neither does the
/// line.
pub proof fn law_failed_line_is_down(
    rt: RuntimeView,
    why: Seq<char>,
    now: u64,
    ts: Timestamp,
    i: int,
)
    requires
        0 <= i < rt.state.slots.len(),
    ensures
        rt.after_event(EventView::SerialError(why), now, ts).state.link == LinkState::Down,
        rt.after_event(EventView::SerialError(why), now, ts).state.slots[i].state
            == DlcState::Closed,
        rt.after_event(EventView::SerialError(why), now, ts).effects == rt.effects,
{
}

/// What is still to be done is never taken back.
pub proof fn law_effects_are_kept(
    rt: RuntimeView,
    cmd: CommandView,
    ev: EventView,
    now: u64,
    ts: Timestamp,
)
    requires
        rt.state.raw_log.len() <= rt.state.cfg.max_records,
    ensures
        rt.effects.is_prefix_of(rt.after_command(cmd, now, ts).effects),
        rt.effects.is_prefix_of(rt.after_event(ev, now, ts).effects),
        rt.effects.is_prefix_of(rt.after_shutdown(now, ts).effects),
{
    law_commands_are_mirrored(rt, cmd, now, ts);
    law_events_are_mirrored(rt, ev, now, ts);
    law_shutdown_is_mirrored(rt, now, ts);
}

/// Every channel of a list that is asked to close gets its request.
proof fn lemma_closing_asks(rt: RuntimeView, dlcis: Seq<u8>, dlci: u8, now: u64, ts: Timestamp)
    requires
        dlcis.contains(dlci),
        rt.state.raw_log.len() <= rt.state.cfg.max_records,
    ensures
        rt.closing(dlcis, now, ts).effects.contains(
            EffectView::Transmit(TxView::Frame(FrameView::disc(dlci))),
        ),
    decreases dlcis.len(),
{
    let wanted = EffectView::Transmit(TxView::Frame(FrameView::disc(dlci)));
    let less = dlcis.drop_last();
    let before = rt.closing(less, now, ts);
    let asked = before.linked(before.session.closed(dlcis.last(), now));
    let acts = seq![ActionView::Send(FrameView::disc(dlcis.last()))];
    let after = rt.closing(dlcis, now, ts);
    assert(acts.drop_last() =~= Seq::empty());
    reveal_with_fuel(RuntimeView::applied_all, 2);
    reveal(RuntimeView::applied);
    reveal(RuntimeView::sent);
    assert(after.effects == before.effects.push(
        EffectView::Transmit(TxView::Frame(FrameView::disc(dlcis.last()))),
    ));
    if dlcis.last() == dlci {
        assert(after.effects.last() == wanted);
    } else {
        let k = choose|k: int| 0 <= k < dlcis.len() && dlcis[k] == dlci;
        assert(less[k] == dlci);
        lemma_closing_asks(rt, less, dlci, now, ts);
        let j = choose|j: int| 0 <= j < before.effects.len() && before.effects[j] == wanted;
        assert(after.effects[j] == wanted);
    }
}

/// At the end nothing is left to gather, every open channel was asked to close,
/// the multiplexer was closed down after that, and the last thing of all stops
/// the writing thread.
pub proof fn law_shutdown_says_goodbye(rt: RuntimeView, dlci: u8, now: u64, ts: Timestamp)
    requires
        rt.state.wf(),
    ensures
        ({
            let after = rt.after_shutdown(now, ts);
            let shut = rt.flushed().closing(rt.session.open_below(256), now, ts);
            &&& after.pending is None
            &&& rt.session.state(dlci) == DlcState::Open ==> shut.effects.contains(
                EffectView::Transmit(TxView::Frame(FrameView::disc(dlci))),
            )
            &&& after.effects[shut.effects.len() as int] == EffectView::Transmit(
                TxView::Frame(runtime::control_frame(ControlView::Cld)),
            )
            &&& shut.effects.is_prefix_of(after.effects)
            &&& after.effects.last() == EffectView::Transmit(TxView::Shutdown)
        }),
{
    lemma_flushed_wf(rt);
    let dlcis = rt.session.open_below(256);
    crate::mux::session::law_open_channels_listed(rt.session, 256);
    if rt.session.state(dlci) == DlcState::Open {
        assert(dlcis.contains(dlci));
        lemma_closing_asks(rt.flushed(), dlcis, dlci, now, ts);
    }
    lemma_closing_gathers_nothing(rt.flushed(), dlcis, now, ts);
    reveal(RuntimeView::sent);
}

proof fn lemma_closing_gathers_nothing(
    rt: RuntimeView,
    dlcis: Seq<u8>,
    now: u64,
    ts: Timestamp,
)
    requires
        rt.pending is None,
    ensures
        rt.closing(dlcis, now, ts).pending is None,
    decreases dlcis.len(),
{
    if dlcis.len() > 0 {
        lemma_closing_gathers_nothing(rt, dlcis.drop_last(), now, ts);
        let acts = seq![ActionView::Send(FrameView::disc(dlcis.last()))];
        assert(acts.drop_last() =~= Seq::empty());
        reveal_with_fuel(RuntimeView::applied_all, 2);
        reveal(RuntimeView::applied);
        reveal(RuntimeView::sent);
    }
}

/// Nothing among what was added to the effects goes to the log, and whether one is
/// written has not changed.
pub open spec fn unlogged(a: RuntimeView, b: RuntimeView) -> bool {
    &&& b.logging == a.logging
    &&& a.effects.is_prefix_of(b.effects)
    &&& forall|i: int|
        a.effects.len() <= i < b.effects.len() ==> !(#[trigger] b.effects[i] is Log)
}

proof fn lemma_unlogged_chain(a: RuntimeView, b: RuntimeView, c: RuntimeView)
    requires
        unlogged(a, b),
        unlogged(b, c),
    ensures
        unlogged(a, c),
{
    assert(a.effects =~= c.effects.subrange(0, a.effects.len() as int));
    assert forall|i: int| a.effects.len() <= i < c.effects.len() implies !(
        #[trigger] c.effects[i] is Log) by {
        if i < b.effects.len() {
            assert(c.effects[i] == c.effects.subrange(0, b.effects.len() as int)[i]);
            assert(b.effects[i] == c.effects[i]);
        }
    }
}

proof fn lemma_recorded_unlogged(rt: RuntimeView, rec: RecordView, now: u64)
    requires
        !rt.logging,
    ensures
        unlogged(rt, rt.recorded(rec, now)),
        unlogged(rt, rt.flushed()),
        unlogged(rt, rt.flushed_if_stale(now)),
{
    reveal(RuntimeView::recorded);
    reveal(RuntimeView::flushed);
    reveal(RuntimeView::flushed_if_stale);
    reveal(RuntimeView::emitted);
}

proof fn lemma_applied_unlogged(rt: RuntimeView, act: ActionView, now: u64, ts: Timestamp)
    requires
        !rt.logging,
    ensures
        unlogged(rt, rt.applied(act, now, ts)),
{
    reveal(RuntimeView::applied);
    reveal(RuntimeView::sent);
    match act {
        ActionView::Opened(dlci) => {
            let up = rt.state.with_dlc_state(dlci, DlcState::Open);
            lemma_recorded_unlogged(
                rt.on(AppView { link: LinkState::Up, ..up }),
                RecordView::words(ts, Direction::Info, dlci, "建链成功"@),
                now,
            );
        },
        ActionView::Failed(dlci, why) => lemma_recorded_unlogged(
            rt.on(rt.state.with_dlc_state(dlci, DlcState::Failed)),
            RecordView::words(ts, Direction::Error, dlci, "建链失败："@ + why),
            now,
        ),
        ActionView::Closed(dlci) => lemma_recorded_unlogged(
            rt.on(rt.state.with_dlc_state(dlci, DlcState::Closed)),
            RecordView::words(ts, Direction::Info, dlci, "通道已关闭"@),
            now,
        ),
        ActionView::Data(dlci, data) => lemma_recorded_unlogged(
            rt,
            RecordView::data(ts, Direction::Rx, dlci, data),
            now,
        ),
        _ => {},
    }
}

proof fn lemma_applied_all_unlogged(
    rt: RuntimeView,
    acts: Seq<ActionView>,
    now: u64,
    ts: Timestamp,
)
    requires
        !rt.logging,
    ensures
        unlogged(rt, rt.applied_all(acts, now, ts)),
    decreases acts.len(),
{
    if acts.len() > 0 {
        let before = rt.applied_all(acts.drop_last(), now, ts);
        lemma_applied_all_unlogged(rt, acts.drop_last(), now, ts);
        lemma_applied_unlogged(before, acts.last(), now, ts);
        lemma_unlogged_chain(rt, before, rt.applied_all(acts, now, ts));
    }
}

/// While no log is written nothing goes to the log, whatever comes.
pub proof fn law_nothing_is_logged_unasked(rt: RuntimeView, ev: EventView, now: u64, ts: Timestamp)
    requires
        !rt.logging,
    ensures
        unlogged(rt, rt.after_event(ev, now, ts)),
{
    match ev {
        EventView::Frame(f) => {
            let b = rt.counted(1, 0, 0).seen(RawView::of_frame(ts, f, false)).linked(
                rt.session.after_frame(f),
            );
            lemma_applied_all_unlogged(b, rt.session.frame_actions(f), now, ts);
            assert(unlogged(rt, b));
            lemma_unlogged_chain(rt, b, rt.after_event(ev, now, ts));
        },
        EventView::Tick => {
            let rec = RecordView::data(ts, Direction::Rx, 0, Seq::empty());
            lemma_recorded_unlogged(rt, rec, now);
            let b = rt.flushed_if_stale(now).linked(rt.session.ticked(now));
            lemma_applied_all_unlogged(b, rt.session.tick_actions(now), now, ts);
            lemma_unlogged_chain(rt, b, rt.after_event(ev, now, ts));
        },
        _ => {},
    }
}

/// While a log is written every record that is handed out goes to it, once and in
/// the words of the log, and to the screen.
pub proof fn law_records_are_logged(rt: RuntimeView, rec: RecordView)
    requires
        rt.logging,
    ensures
        rt.emitted(rec).effects == rt.effects.push(EffectView::Log(log::entry(rec))),
        rt.emitted(rec).state == rt.state.with_record(rec),
{
    reveal(RuntimeView::emitted);
}

/// A log that is turned off is flushed and closed; turned on again, it goes on in
/// the same file once that could be opened.
pub proof fn law_log_goes_on_in_the_same_file(
    rt: RuntimeView,
    path: Seq<char>,
    off: Timestamp,
    on: Timestamp,
)
    requires
        rt.logging,
        rt.log_path == Some(path),
    ensures
        ({
            let quiet = rt.log_toggled(off);
            let asked = quiet.log_toggled(on);
            let back = asked.log_answered(path, Ok(()));
            &&& !quiet.logging
            &&& quiet.effects == rt.effects + seq![EffectView::FlushLog, EffectView::CloseLog]
            &&& asked.effects == quiet.effects.push(
                EffectView::OpenLog { path, first_line: log::opening(on) },
            )
            &&& back.logging
            &&& back.log_path == Some(path)
        }),
{
    assert(rt.log_toggled(off).effects =~= rt.effects + seq![
        EffectView::FlushLog,
        EffectView::CloseLog,
    ]);
}

} // verus!
