//! What events and commands come to: which frames go out, how the channels stand then,
//! what is counted, and what the screen says.
#[allow(unused_imports)]
use crate::app::event::{EventView, TxView};
#[allow(unused_imports)]
use crate::app::guarantees;
#[allow(unused_imports)]
use crate::app::keymap::CommandView;
#[allow(unused_imports)]
use crate::app::log;
#[allow(unused_imports)]
use crate::app::record::{Direction, RecordView};
#[allow(unused_imports)]
use crate::app::runtime;
#[allow(unused_imports)]
use crate::app::runtime::{EffectView, PendingView, RuntimeView};
#[allow(unused_imports)]
use crate::app::state;
#[allow(unused_imports)]
use crate::app::state::{AppView, LinkState, RawView, SlotView, StatsView};
#[allow(unused_imports)]
use crate::clock::Timestamp;
#[allow(unused_imports)]
use crate::mux::control::ControlView;
#[allow(unused_imports)]
use crate::mux::frame::{FrameType, FrameView};
#[allow(unused_imports)]
use crate::mux::session::{ActionView, DlcState, SessionView};
use vstd::prelude::*;

verus! {

/// The frames among some effects, in order.
pub open spec fn frames_out(effects: Seq<EffectView>) -> Seq<FrameView>
    decreases effects.len(),
{
    if effects.len() == 0 {
        Seq::empty()
    } else {
        let before = frames_out(effects.drop_last());
        match effects.last() {
            EffectView::Transmit(TxView::Frame(f)) => before.push(f),
            _ => before,
        }
    }
}

/// The frames that some actions send, in order.
pub open spec fn frames_of(acts: Seq<ActionView>) -> Seq<FrameView>
    decreases acts.len(),
{
    if acts.len() == 0 {
        Seq::empty()
    } else {
        let before = frames_of(acts.drop_last());
        match acts.last() {
            ActionView::Send(f) => before.push(f),
            _ => before,
        }
    }
}

/// Whether, from one runtime to another, just these frames were handed out, and counted as
/// sent. Nothing that was to be done is gone; what came in was not counted anew; and the
/// settings, the focus, the input line, the dialog, the port, the log and whether it runs
/// are as they were.
pub open spec fn handed_out(a: RuntimeView, b: RuntimeView, frames: Seq<FrameView>) -> bool {
    let n = a.effects.len() as int;
    &&& n <= b.effects.len()
    &&& b.effects.take(n) == a.effects
    &&& frames_out(b.effects.skip(n)) == frames
    &&& b.state.stats == (StatsView {
        tx_frames: a.state.stats.tx_frames + frames.len(),
        ..a.state.stats
    })
    &&& b.running == a.running
    &&& b.logging == a.logging
    &&& b.log_path == a.log_path
    &&& b.state.cfg == a.state.cfg
    &&& b.state.focus == a.state.focus
    &&& b.state.input == a.state.input
    &&& b.state.dialog == a.state.dialog
    &&& b.state.show_raw == a.state.show_raw
    &&& b.state.port_desc == a.state.port_desc
}

/// The frames of two lists of effects.
proof fn lemma_frames_of_both(a: Seq<EffectView>, b: Seq<EffectView>)
    ensures
        frames_out(a + b) == frames_out(a) + frames_out(b),
    decreases b.len(),
{
    if b.len() == 0 {
        assert(a + b =~= a);
        assert(frames_out(a) + frames_out(b) =~= frames_out(a));
    } else {
        lemma_frames_of_both(a, b.drop_last());
        assert((a + b).drop_last() =~= a + b.drop_last());
        assert((a + b).last() == b.last());
        assert(frames_out(a + b) =~= frames_out(a) + frames_out(b));
    }
}

/// One after the other.
proof fn lemma_then(
    a: RuntimeView,
    b: RuntimeView,
    c: RuntimeView,
    f: Seq<FrameView>,
    g: Seq<FrameView>,
)
    requires
        handed_out(a, b, f),
        handed_out(b, c, g),
    ensures
        handed_out(a, c, f + g),
{
    let n = a.effects.len() as int;
    let m = b.effects.len() as int;
    assert(c.effects.take(n) =~= b.effects.take(n)) by {
        assert(c.effects.take(m) =~= b.effects);
        assert forall|i: int| 0 <= i < n implies c.effects.take(n)[i] == b.effects.take(n)[i] by {
            assert(c.effects.take(m)[i] == c.effects[i]);
        }
    }
    assert(c.effects.skip(n) =~= b.effects.skip(n) + c.effects.skip(m)) by {
        assert forall|i: int| 0 <= i < c.effects.len() - n implies c.effects.skip(n)[i] == (
        b.effects.skip(n) + c.effects.skip(m))[i] by {
            if i < m - n {
                assert(c.effects.take(m)[n + i] == c.effects[n + i]);
            }
        }
    }
    lemma_frames_of_both(b.effects.skip(n), c.effects.skip(m));
}

/// Nothing happened outside.
proof fn lemma_nothing(a: RuntimeView, b: RuntimeView)
    requires
        b.effects == a.effects,
        b.state.stats == a.state.stats,
        b.running == a.running,
        b.logging == a.logging,
        b.log_path == a.log_path,
        b.state.cfg == a.state.cfg,
        b.state.focus == a.state.focus,
        b.state.input == a.state.input,
        b.state.dialog == a.state.dialog,
        b.state.show_raw == a.state.show_raw,
        b.state.port_desc == a.state.port_desc,
    ensures
        handed_out(a, b, Seq::empty()),
{
    let n = a.effects.len() as int;
    assert(b.effects.take(n) =~= a.effects);
    assert(b.effects.skip(n) =~= Seq::empty());
}

/// One more thing to be done.
proof fn lemma_one_effect(a: RuntimeView, e: EffectView)
    requires
        !(e matches EffectView::Transmit(TxView::Frame(_))),
    ensures
        handed_out(a, a.with_effect(e), Seq::empty()),
{
    let n = a.effects.len() as int;
    let b = a.with_effect(e);
    assert(b.effects.take(n) =~= a.effects);
    assert(b.effects.skip(n) =~= seq![e]);
    assert(seq![e].drop_last() =~= Seq::empty());
    reveal_with_fuel(frames_out, 2);
}

proof fn lemma_emitted(a: RuntimeView, rec: RecordView)
    ensures
        handed_out(a, a.emitted(rec), Seq::empty()),
        a.emitted(rec).session == a.session,
        a.emitted(rec).pending == a.pending,
        a.emitted(rec).state.link == a.state.link,
        a.emitted(rec).state.notice == a.state.notice,
        a.emitted(rec).state == a.state.with_record(rec),
{
    reveal(RuntimeView::emitted);
    let e = EffectView::Log(log::entry(rec));
    let mid = if a.logging {
        a.with_effect(e)
    } else {
        a
    };
    let b = a.emitted(rec);
    if a.logging {
        lemma_one_effect(a, e);
    } else {
        lemma_nothing(a, a);
    }
    assert(a.state.with_record(rec) == (AppView {
        slots: a.state.with_record(rec).slots,
        unrouted: a.state.with_record(rec).unrouted,
        ..a.state
    }));
    lemma_nothing(mid, b);
    lemma_then(a, mid, b, Seq::empty(), Seq::empty());
    assert(Seq::<FrameView>::empty() + Seq::<FrameView>::empty() =~= Seq::empty());
}

proof fn lemma_flushed(a: RuntimeView)
    ensures
        handed_out(a, a.flushed(), Seq::empty()),
        a.flushed().session == a.session,
        a.flushed().pending is None,
        a.flushed().state.link == a.state.link,
        a.flushed().state.notice == a.state.notice,
        a.flushed().state == (match a.pending {
            Some(p) => a.state.with_record(p.record()),
            None => a.state,
        }),
{
    reveal(RuntimeView::flushed);
    match a.pending {
        Some(p) => {
            let mid = RuntimeView { pending: None, ..a };
            lemma_nothing(a, mid);
            lemma_emitted(mid, p.record());
            lemma_then(a, mid, a.flushed(), Seq::empty(), Seq::empty());
            assert(Seq::<FrameView>::empty() + Seq::<FrameView>::empty() =~= Seq::empty());
        },
        None => lemma_nothing(a, a),
    }
}

proof fn lemma_recorded(a: RuntimeView, rec: RecordView, now: u64)
    ensures
        handed_out(a, a.recorded(rec, now), Seq::empty()),
        a.recorded(rec, now).session == a.session,
        a.recorded(rec, now).state.link == a.state.link,
        a.recorded(rec, now).state.notice == a.state.notice,
{
    reveal(RuntimeView::recorded);
    let b = a.recorded(rec, now);
    assert(Seq::<FrameView>::empty() + Seq::<FrameView>::empty() =~= Seq::empty());
    lemma_flushed(a);
    let mid = a.flushed();
    if rec.note is Some {
        lemma_emitted(mid, rec);
        lemma_then(a, mid, b, Seq::empty(), Seq::empty());
    } else if a.state.cfg.merge_window == 0 {
        lemma_emitted(a, rec);
    } else {
        match a.pending {
            Some(p) if p.takes(rec, now, a.state.cfg.merge_window) => lemma_nothing(a, b),
            _ => {
                lemma_nothing(mid, b);
                lemma_then(a, mid, b, Seq::empty(), Seq::empty());
            },
        }
    }
}

proof fn lemma_sent(a: RuntimeView, f: FrameView, ts: Timestamp)
    ensures
        handed_out(a, a.sent(f, ts), seq![f]),
        a.sent(f, ts).session == a.session,
        a.sent(f, ts).pending == a.pending,
        a.sent(f, ts).state.link == a.state.link,
        a.sent(f, ts).state.notice == a.state.notice,
        a.sent(f, ts).state.slots == a.state.slots,
        a.sent(f, ts).effects == a.effects.push(EffectView::Transmit(TxView::Frame(f))),
{
    reveal(RuntimeView::sent);
    let b = a.sent(f, ts);
    let n = a.effects.len() as int;
    let e = EffectView::Transmit(TxView::Frame(f));
    assert(b.effects.take(n) =~= a.effects);
    assert(b.effects.skip(n) =~= seq![e]);
    assert(seq![e].drop_last() =~= Seq::empty());
    reveal_with_fuel(frames_out, 2);
    assert(frames_out(seq![e]) =~= seq![f]);
}

/// Each thing that the link state machine asks for is done: a frame that it sends goes out
/// to be written, and nothing else does.
proof fn lemma_applied(a: RuntimeView, act: ActionView, now: u64, ts: Timestamp)
    ensures
        a.applied(act, now, ts).session == a.session,
        handed_out(
            a,
            a.applied(act, now, ts),
            match act {
                ActionView::Send(f) => seq![f],
                _ => Seq::empty(),
            },
        ),
{
    reveal(RuntimeView::applied);
    assert(Seq::<FrameView>::empty() + Seq::<FrameView>::empty() =~= Seq::empty());
    let b = a.applied(act, now, ts);
    match act {
        ActionView::Send(f) => lemma_sent(a, f, ts),
        ActionView::Opened(dlci) => {
            let mid = a.on(
                AppView { link: LinkState::Up, ..a.state.with_dlc_state(dlci, DlcState::Open) },
            );
            lemma_nothing(a, mid);
            lemma_recorded(mid, RecordView::words(ts, Direction::Info, dlci, "建链成功"@), now);
            lemma_then(a, mid, b, Seq::empty(), Seq::empty());
        },
        ActionView::Failed(dlci, why) => {
            let mid = a.on(a.state.with_dlc_state(dlci, DlcState::Failed));
            lemma_nothing(a, mid);
            lemma_recorded(
                mid,
                RecordView::words(ts, Direction::Error, dlci, "建链失败："@ + why),
                now,
            );
            lemma_then(a, mid, b, Seq::empty(), Seq::empty());
        },
        ActionView::Closed(dlci) => {
            let mid = a.on(a.state.with_dlc_state(dlci, DlcState::Closed));
            lemma_nothing(a, mid);
            lemma_recorded(mid, RecordView::words(ts, Direction::Info, dlci, "通道已关闭"@), now);
            lemma_then(a, mid, b, Seq::empty(), Seq::empty());
        },
        ActionView::Data(dlci, data) => lemma_recorded(
            a,
            RecordView::data(ts, Direction::Rx, dlci, data),
            now,
        ),
        ActionView::Control(_, _) => lemma_nothing(a, b),
    }
}

/// Whatever the link state machine asks for, the frames that it sends go out to be
/// written, all of them and in its order, and no others; the channels stay as they are.
pub proof fn law_every_send_goes_out(
    a: RuntimeView,
    acts: Seq<ActionView>,
    now: u64,
    ts: Timestamp,
)
    ensures
        a.applied_all(acts, now, ts).session == a.session,
        handed_out(a, a.applied_all(acts, now, ts), frames_of(acts)),
    decreases acts.len(),
{
    if acts.len() == 0 {
        lemma_nothing(a, a);
    } else {
        let front = acts.drop_last();
        let mid = a.applied_all(front, now, ts);
        law_every_send_goes_out(a, front, now, ts);
        lemma_applied(mid, acts.last(), now, ts);
        let more = match acts.last() {
            ActionView::Send(f) => seq![f],
            _ => Seq::empty(),
        };
        lemma_then(a, mid, a.applied_all(acts, now, ts), frames_of(front), more);
        assert(frames_of(front) + more =~= frames_of(acts));
    }
}

/// The frames of one action alone.
proof fn lemma_single(act: ActionView)
    ensures
        frames_of(seq![act]) == (match act {
            ActionView::Send(f) => seq![f],
            _ => Seq::empty(),
        }),
{
    reveal_with_fuel(frames_of, 2);
    assert(seq![act].drop_last() =~= Seq::empty());
    assert(frames_of(seq![act]) =~= (match act {
        ActionView::Send(f) => seq![f],
        _ => Seq::empty(),
    }));
}

/// What an event does to the channels, which frames go out for it, and what it counts. A
/// frame is counted as received and handed to the link state machine, a body with a wrong
/// check byte is counted as that, garbage by its bytes; time that passed lets the link
/// state machine look at its deadlines. What the link state machine sends goes out; nothing
/// else does.
pub proof fn law_what_events_send_and_count(
    rt: RuntimeView,
    ev: EventView,
    now: u64,
    ts: Timestamp,
)
    ensures
        ({
            let after = rt.after_event(ev, now, ts);
            let (was, is) = (rt.state.stats, after.state.stats);
            let n = rt.effects.len() as int;
            let out = frames_out(after.effects.skip(n));
            &&& rt.effects.is_prefix_of(after.effects)
            &&& after.session == (match ev {
                EventView::Frame(f) => rt.session.after_frame(f),
                EventView::Tick => rt.session.ticked(now),
                _ => rt.session,
            })
            &&& out == (match ev {
                EventView::Frame(f) => frames_of(rt.session.frame_actions(f)),
                EventView::Tick => frames_of(rt.session.tick_actions(now)),
                _ => Seq::empty(),
            })
            &&& is.tx_frames == was.tx_frames + out.len()
            &&& is.rx_frames == was.rx_frames + (if ev is Frame {
                1nat
            } else {
                0
            })
            &&& is.fcs_errors == was.fcs_errors + (if ev is FcsError {
                1nat
            } else {
                0
            })
            &&& is.garbage_bytes == was.garbage_bytes + (match ev {
                EventView::Garbage(bytes) => bytes.len(),
                _ => 0,
            })
            &&& after.running == rt.running && after.logging == rt.logging
            &&& after.state.cfg == rt.state.cfg && after.state.focus == rt.state.focus
            &&& after.state.input == rt.state.input && after.state.dialog == rt.state.dialog
            &&& after.state.show_raw == rt.state.show_raw
        }),
{
    let after = rt.after_event(ev, now, ts);
    let n = rt.effects.len() as int;
    assert(rt.effects =~= rt.effects.subrange(0, n));
    assert(rt.effects.skip(n) =~= Seq::empty());
    match ev {
        EventView::Frame(f) => {
            let mid = rt.counted(1, 0, 0).seen(RawView::of_frame(ts, f, false)).linked(
                rt.session.after_frame(f),
            );
            law_every_send_goes_out(mid, rt.session.frame_actions(f), now, ts);
            assert(rt.effects =~= after.effects.subrange(0, n));
        },
        EventView::Tick => {
            reveal(RuntimeView::flushed_if_stale);
            let calm = rt.flushed_if_stale(now);
            lemma_flushed(rt);
            lemma_nothing(rt, rt);
            assert(handed_out(rt, calm, Seq::empty()));
            let mid = calm.linked(rt.session.ticked(now));
            let acts = rt.session.tick_actions(now);
            law_every_send_goes_out(mid, acts, now, ts);
            assert(handed_out(calm, after, frames_of(acts)));
            lemma_then(rt, calm, after, Seq::empty(), frames_of(acts));
            assert(Seq::<FrameView>::empty() + frames_of(acts) =~= frames_of(acts));
            assert(rt.effects =~= after.effects.subrange(0, n));
        },
        _ => {
            assert(after.effects == rt.effects);
        },
    }
}

/// What a command sends. Data on an open channel is one frame with just that data, and
/// nothing on any other. To open a channel is one SABM, to close it one DISC. Modem status
/// goes out on the control channel as the bytes `E3 05`, the address of the channel and
/// `8D`, closing down as `C3 01`. Nothing else sends anything, and only opening and closing
/// change how the channels stand. Quitting, and nothing else, ends the running.
pub proof fn law_what_commands_send(rt: RuntimeView, cmd: CommandView, now: u64, ts: Timestamp)
    requires
        rt.state.wf(),
        cmd matches CommandView::OpenDlc { slot, .. } ==> slot < 2,
    ensures
        ({
            let after = rt.after_command(cmd, now, ts);
            let out = frames_out(after.effects.skip(rt.effects.len() as int));
            let plain = |dlci: u8, ftype: FrameType| FrameView {
                dlci,
                cr: true,
                pf: true,
                ftype,
                info: Seq::empty(),
            };
            let data = |dlci: u8, info: Seq<u8>| FrameView {
                dlci,
                cr: true,
                pf: false,
                ftype: FrameType::Uih,
                info,
            };
            &&& rt.effects.is_prefix_of(after.effects)
            &&& match cmd {
                CommandView::Send { dlci, bytes } => {
                    &&& after.session == rt.session
                    &&& rt.session.state(dlci) == DlcState::Open ==> out == seq![data(dlci, bytes)]
                    &&& rt.session.state(dlci) != DlcState::Open ==> out.len() == 0
                },
                CommandView::OpenDlc { dlci, .. } => {
                    &&& after.session == rt.session.opened(dlci, now)
                    &&& out == seq![plain(dlci, FrameType::Sabm)]
                },
                CommandView::CloseDlc { dlci } => {
                    &&& after.session == rt.session.closed(dlci, now)
                    &&& out == seq![plain(dlci, FrameType::Disc)]
                },
                CommandView::SendMsc { dlci } => {
                    &&& after.session == rt.session
                    &&& out == seq![
                        data(0, seq![0xE3u8, 0x05, (dlci % 64 * 4 + 3) as u8, 0x8D]),
                    ]
                },
                CommandView::CloseMux => {
                    &&& after.session == rt.session
                    &&& out == seq![data(0, seq![0xC3u8, 0x01])]
                },
                _ => after.session == rt.session && out.len() == 0,
            }
            &&& after.state.stats.tx_frames == rt.state.stats.tx_frames + out.len()
            &&& after.running == (rt.running && !(cmd is Quit))
        }),
{
    let after = rt.after_command(cmd, now, ts);
    let n = rt.effects.len() as int;
    let empty = Seq::<FrameView>::empty();
    assert(rt.effects.skip(n) =~= Seq::empty());
    assert(rt.effects =~= rt.effects.subrange(0, n));
    assert forall|f: Seq<FrameView>| #[trigger] (empty + f) == f by {
        assert(empty + f =~= f);
    }
    match cmd {
        CommandView::Send { dlci, bytes } => {
            if rt.session.state(dlci) != DlcState::Open {
                lemma_recorded(
                    rt,
                    RecordView::words(ts, Direction::Error, dlci, "通道未建链，无法发送"@),
                    now,
                );
            } else {
                let rec = RecordView::data(ts, Direction::Tx, dlci, bytes);
                let acts = rt.session.data_actions(dlci, bytes);
                lemma_recorded(rt, rec, now);
                let mid = rt.recorded(rec, now);
                law_every_send_goes_out(mid, acts, now, ts);
                lemma_single(acts[0]);
                assert(acts =~= seq![acts[0]]);
                lemma_then(rt, mid, after, empty, frames_of(acts));
            }
            assert(rt.effects =~= after.effects.subrange(0, n));
        },
        CommandView::OpenDlc { dlci, slot } => {
            reveal(RuntimeView::opening);
            state::law_cleared_slot_is_given(
                rt.state,
                dlci,
                slot as int,
                DlcState::Opening { attempts: 1 },
            );
            let freed = match rt.state.slots[slot as int].dlci {
                Some(existing) if existing != dlci => rt.on(rt.state.unbound(existing)),
                _ => rt,
            };
            lemma_nothing(rt, freed);
            let mid = freed.on(
                freed.state.bound_in(dlci, slot as int).with_dlc_state(
                    dlci,
                    DlcState::Opening { attempts: 1 },
                ),
            );
            lemma_nothing(freed, mid);
            lemma_then(rt, freed, mid, empty, empty);
            let rec = RecordView::words(ts, Direction::Info, dlci, "发起建链 (SABM)"@);
            lemma_recorded(mid, rec, now);
            let bound = mid.recorded(rec, now);
            lemma_then(rt, mid, bound, empty, empty);
            let acts = seq![ActionView::Send(FrameView::sabm(dlci))];
            law_every_send_goes_out(bound.linked(rt.session.opened(dlci, now)), acts, now, ts);
            lemma_single(acts[0]);
            assert(handed_out(bound, after, frames_of(acts)));
            lemma_then(rt, bound, after, empty, frames_of(acts));
            assert(rt.effects =~= after.effects.subrange(0, n));
        },
        CommandView::CloseDlc { dlci } => {
            let rec = RecordView::words(ts, Direction::Info, dlci, "请求关闭通道 (DISC)"@);
            lemma_recorded(rt, rec, now);
            let mid = rt.recorded(rec, now);
            let acts = seq![ActionView::Send(FrameView::disc(dlci))];
            law_every_send_goes_out(mid.linked(rt.session.closed(dlci, now)), acts, now, ts);
            lemma_single(acts[0]);
            assert(handed_out(mid, after, frames_of(acts)));
            lemma_then(rt, mid, after, empty, frames_of(acts));
            assert(rt.effects =~= after.effects.subrange(0, n));
        },
        CommandView::SendMsc { dlci } => {
            let msg = ControlView::Msc { dlci, signals: runtime::MSC_SIGNALS_READY };
            let mid = rt.noticed("已发送 "@ + msg.described());
            lemma_nothing(rt, mid);
            lemma_sent(mid, runtime::control_frame(msg), ts);
            lemma_then(rt, mid, after, empty, seq![runtime::control_frame(msg)]);
            crate::mux::control::law_bytes_of_a_message(msg);
            assert(rt.effects =~= after.effects.subrange(0, n));
        },
        CommandView::CloseMux => {
            let mid = rt.noticed("已发送 CLD，复用即将关闭"@);
            lemma_nothing(rt, mid);
            lemma_sent(mid, runtime::control_frame(ControlView::Cld), ts);
            lemma_then(rt, mid, after, empty, seq![runtime::control_frame(ControlView::Cld)]);
            crate::mux::control::law_bytes_of_a_message(ControlView::Cld);
            assert(rt.effects =~= after.effects.subrange(0, n));
        },
        CommandView::ToggleLog => {
            if rt.logging {
                let one = rt.with_effect(EffectView::FlushLog);
                let two = one.with_effect(EffectView::CloseLog);
                lemma_one_effect(rt, EffectView::FlushLog);
                lemma_one_effect(one, EffectView::CloseLog);
                lemma_then(rt, one, two, empty, empty);
            } else {
                lemma_one_effect(rt, after.effects.last());
            }
            assert(rt.effects =~= after.effects.subrange(0, n));
        },
        _ => {},
    }
}

/// What is sent at the end: one DISC for each open channel, in the order of the channels,
/// then closing down as `C3 01` on the control channel, and nothing more. Whatever was
/// gathered is handed out first, a log is seen to its file, and the last thing of all stops
/// the writing.
pub proof fn law_what_is_sent_at_the_end(rt: RuntimeView, now: u64, ts: Timestamp)
    ensures
        ({
            let after = rt.after_shutdown(now, ts);
            let n = rt.effects.len() as int;
            let open = rt.session.open_below(256);
            let out = frames_out(after.effects.skip(n));
            &&& rt.effects.is_prefix_of(after.effects)
            &&& out.len() == open.len() + 1
            &&& forall|i: int|
                0 <= i < open.len() ==> #[trigger] out[i] == (FrameView {
                    dlci: open[i],
                    cr: true,
                    pf: true,
                    ftype: FrameType::Disc,
                    info: Seq::empty(),
                })
            &&& out.last() == (FrameView {
                dlci: 0,
                cr: true,
                pf: false,
                ftype: FrameType::Uih,
                info: seq![0xC3u8, 0x01],
            })
            &&& after.effects.len() > n && after.effects.last() == EffectView::Transmit(
                TxView::Shutdown,
            )
            &&& rt.logging ==> after.effects[after.effects.len() - 2] == EffectView::FlushLog
            &&& after.pending is None
        }),
{
    let after = rt.after_shutdown(now, ts);
    let n = rt.effects.len() as int;
    let open = rt.session.open_below(256);
    let empty = Seq::<FrameView>::empty();
    assert forall|f: Seq<FrameView>| #[trigger] (f + empty) == f by {
        assert(f + empty =~= f);
    }
    lemma_flushed(rt);
    let calm = rt.flushed();
    let discs = open.map_values(|d: u8| FrameView::disc(d));
    lemma_closing(calm, open, now, ts);
    let shut = calm.closing(open, now, ts);
    lemma_then(rt, calm, shut, empty, discs);
    assert(empty + discs =~= discs);
    let cld = runtime::control_frame(ControlView::Cld);
    crate::mux::control::law_bytes_of_a_message(ControlView::Cld);
    lemma_sent(shut, cld, ts);
    let gone = shut.sent(cld, ts);
    lemma_then(rt, shut, gone, discs, seq![cld]);
    let saved = if gone.logging {
        gone.with_effect(EffectView::FlushLog)
    } else {
        gone
    };
    if gone.logging {
        lemma_one_effect(gone, EffectView::FlushLog);
    } else {
        lemma_nothing(gone, gone);
    }
    lemma_then(rt, gone, saved, discs + seq![cld], empty);
    lemma_one_effect(saved, EffectView::Transmit(TxView::Shutdown));
    lemma_then(rt, saved, after, discs + seq![cld], empty);
    assert(rt.effects =~= after.effects.subrange(0, n));
    let out = frames_out(after.effects.skip(n));
    assert(out == discs + seq![cld]);
    assert forall|i: int| 0 <= i < open.len() implies #[trigger] out[i] == FrameView::disc(
        open[i],
    ) by {
        assert(out[i] == discs[i]);
    }
    assert(out.last() == cld);
}

proof fn lemma_closing(a: RuntimeView, dlcis: Seq<u8>, now: u64, ts: Timestamp)
    ensures
        handed_out(
            a,
            a.closing(dlcis, now, ts),
            dlcis.map_values(|d: u8| FrameView::disc(d)),
        ),
        a.closing(dlcis, now, ts).pending == a.pending,
    decreases dlcis.len(),
{
    let frames = dlcis.map_values(|d: u8| FrameView::disc(d));
    if dlcis.len() == 0 {
        lemma_nothing(a, a);
        assert(frames =~= Seq::empty());
    } else {
        let front = dlcis.drop_last();
        let dlci = dlcis.last();
        lemma_closing(a, front, now, ts);
        let before = a.closing(front, now, ts);
        let after = a.closing(dlcis, now, ts);
        let acts = seq![ActionView::Send(FrameView::disc(dlci))];
        let mid = before.linked(before.session.closed(dlci, now));
        law_every_send_goes_out(mid, acts, now, ts);
        lemma_single(acts[0]);
        assert(handed_out(before, after, frames_of(acts)));
        let some = front.map_values(|d: u8| FrameView::disc(d));
        lemma_then(a, before, after, some, frames_of(acts));
        assert(some + frames_of(acts) =~= frames);
        reveal_with_fuel(RuntimeView::applied_all, 2);
        assert(acts.drop_last() =~= Seq::empty());
        reveal(RuntimeView::applied);
        lemma_sent(mid, FrameView::disc(dlci), ts);
    }
}

/// When what was gathered is handed out of itself: once more time than the window has
/// gone by since the last piece of it, and not before. It is one record then, of its
/// channel and direction, with its bytes and the time of its first piece, and no words.
pub proof fn law_gathered_data_waits_for_the_window(rt: RuntimeView, now: u64)
    ensures
        ({
            let after = rt.flushed_if_stale(now);
            match rt.pending {
                None => after == rt,
                Some(p) => {
                    let rec = RecordView {
                        ts: p.ts,
                        dir: p.dir,
                        dlci: p.dlci,
                        bytes: p.bytes,
                        note: None,
                    };
                    &&& now - p.last <= rt.state.cfg.merge_window ==> after == rt
                    &&& now - p.last > rt.state.cfg.merge_window ==> {
                        &&& after.pending is None
                        &&& after.state == rt.state.with_record(rec)
                        &&& after.effects == (if rt.logging {
                            rt.effects.push(EffectView::Log(log::entry(rec)))
                        } else {
                            rt.effects
                        })
                    }
                },
            }
        }),
{
    reveal(RuntimeView::flushed_if_stale);
    reveal(RuntimeView::flushed);
    reveal(RuntimeView::emitted);
}

/// How data is gathered. A piece that comes on the channel and in the direction of what
/// is being gathered, no later than the window after the last piece of that, is put
/// behind it, and nothing else changes. Any other piece begins anew, and what was gathered
/// before is handed out first.
pub proof fn law_how_data_is_gathered(rt: RuntimeView, rec: RecordView, now: u64)
    requires
        rec.note is None,
        rt.state.cfg.merge_window > 0,
    ensures
        ({
            let after = rt.recorded(rec, now);
            let fresh = PendingView {
                dlci: rec.dlci,
                dir: rec.dir,
                ts: rec.ts,
                bytes: rec.bytes,
                last: now,
            };
            match rt.pending {
                None => after == (RuntimeView { pending: Some(fresh), ..rt }),
                Some(p) => if p.dlci == rec.dlci && p.dir == rec.dir && now - p.last
                    <= rt.state.cfg.merge_window {
                    after == (RuntimeView {
                        pending: Some(
                            PendingView {
                                dlci: p.dlci,
                                dir: p.dir,
                                ts: p.ts,
                                bytes: p.bytes + rec.bytes,
                                last: now,
                            },
                        ),
                        ..rt
                    })
                } else {
                    &&& after.pending == Some(fresh)
                    &&& after.state == rt.state.with_record(
                        RecordView {
                            ts: p.ts,
                            dir: p.dir,
                            dlci: p.dlci,
                            bytes: p.bytes,
                            note: None,
                        },
                    )
                },
            }
        }),
{
    reveal(RuntimeView::recorded);
    reveal(RuntimeView::flushed);
    reveal(RuntimeView::emitted);
}

/// A record that is handed out is on the screen, and in the log exactly where one is
/// written.
pub proof fn law_record_is_logged_where_a_log_is_written(rt: RuntimeView, rec: RecordView)
    ensures
        rt.emitted(rec) == (RuntimeView {
            state: rt.state.with_record(rec),
            effects: if rt.logging {
                rt.effects.push(EffectView::Log(log::entry(rec)))
            } else {
                rt.effects
            },
            ..rt
        }),
{
    reveal(RuntimeView::emitted);
}

/// Records change which channel is in which slot, and how it stands, not at all.
proof fn lemma_recorded_keeps(rt: RuntimeView, rec: RecordView, now: u64, i: int)
    requires
        rt.state.wf(),
        0 <= i < 2,
    ensures
        rt.recorded(rec, now).state.wf(),
        rt.recorded(rec, now).state.slots[i].dlci == rt.state.slots[i].dlci,
        rt.recorded(rec, now).state.slots[i].state == rt.state.slots[i].state,
{
    reveal(RuntimeView::recorded);
    lemma_flushed(rt);
    let mid = rt.flushed();
    if let Some(p) = rt.pending {
        lemma_with_record_keeps(rt.state, p.record(), i);
    }
    lemma_with_record_keeps(mid.state, rec, i);
    lemma_with_record_keeps(rt.state, rec, i);
    lemma_emitted(mid, rec);
    lemma_emitted(rt, rec);
}

proof fn lemma_with_record_keeps(s: AppView, rec: RecordView, i: int)
    requires
        s.wf(),
        0 <= i < 2,
    ensures
        s.with_record(rec).wf(),
        s.with_record(rec).slots[i].dlci == s.slots[i].dlci,
        s.with_record(rec).slots[i].state == s.slots[i].state,
{
    state::law_record_is_shown_in_its_slot(s, rec, i);
    state::law_state_stays_wf(
        s,
        0,
        DlcState::Closed,
        rec,
        RawView { ts: rec.ts, outgoing: false, summary: Seq::empty(), ok: false, bytes: Seq::empty() },
        0,
        0,
    );
}

/// What the screen shows of how the channels stand once something that the link state
/// machine asked for is done. A channel that is open, has failed or is closed is shown so
/// in its slot, and the line counts as up once a channel is open. A message of the control
/// channel is shown at the bottom, as a command or as an answer. Nothing else of this
/// changes.
pub proof fn law_how_the_channels_are_shown(
    rt: RuntimeView,
    act: ActionView,
    now: u64,
    ts: Timestamp,
    i: int,
)
    requires
        rt.state.wf(),
        0 <= i < 2,
    ensures
        ({
            let after = rt.applied(act, now, ts).state;
            let was = rt.state.slots[i];
            let is = after.slots[i];
            &&& is.dlci == was.dlci
            &&& is.state == (match act {
                ActionView::Opened(d) if was.dlci == Some(d) => DlcState::Open,
                ActionView::Failed(d, _) if was.dlci == Some(d) => DlcState::Failed,
                ActionView::Closed(d) if was.dlci == Some(d) => DlcState::Closed,
                _ => was.state,
            })
            &&& after.link == (if act is Opened {
                LinkState::Up
            } else {
                rt.state.link
            })
            &&& after.notice == (match act {
                ActionView::Control(msg, is_command) => Some(
                    (if is_command {
                        "控制通道命令："@
                    } else {
                        "控制通道响应："@
                    }) + msg.described(),
                ),
                _ => rt.state.notice,
            })
        }),
{
    reveal(RuntimeView::applied);
    match act {
        ActionView::Send(f) => lemma_sent(rt, f, ts),
        ActionView::Opened(d) => {
            lemma_noted(rt.state, d, DlcState::Open, i);
            let mid = rt.on(
                AppView { link: LinkState::Up, ..rt.state.with_dlc_state(d, DlcState::Open) },
            );
            let rec = RecordView::words(ts, Direction::Info, d, "建链成功"@);
            lemma_recorded(mid, rec, now);
            lemma_recorded_keeps(mid, rec, now, i);
        },
        ActionView::Failed(d, why) => {
            lemma_noted(rt.state, d, DlcState::Failed, i);
            let mid = rt.on(rt.state.with_dlc_state(d, DlcState::Failed));
            let rec = RecordView::words(ts, Direction::Error, d, "建链失败："@ + why);
            lemma_recorded(mid, rec, now);
            lemma_recorded_keeps(mid, rec, now, i);
        },
        ActionView::Closed(d) => {
            lemma_noted(rt.state, d, DlcState::Closed, i);
            let mid = rt.on(rt.state.with_dlc_state(d, DlcState::Closed));
            let rec = RecordView::words(ts, Direction::Info, d, "通道已关闭"@);
            lemma_recorded(mid, rec, now);
            lemma_recorded_keeps(mid, rec, now, i);
        },
        ActionView::Data(d, data) => {
            let rec = RecordView::data(ts, Direction::Rx, d, data);
            lemma_recorded(rt, rec, now);
            lemma_recorded_keeps(rt, rec, now, i);
        },
        ActionView::Control(_, _) => {},
    }
}

proof fn lemma_noted(s: AppView, dlci: u8, to: DlcState, i: int)
    requires
        s.wf(),
        0 <= i < 2,
    ensures
        s.with_dlc_state(dlci, to).wf(),
        s.with_dlc_state(dlci, to).slots[i].dlci == s.slots[i].dlci,
        s.with_dlc_state(dlci, to).slots[i].records == s.slots[i].records,
        s.with_dlc_state(dlci, to).slots[i].state == (if s.slots[i].dlci == Some(dlci) {
            to
        } else {
            s.slots[i].state
        }),
{
    state::law_state_is_noted_in_its_slot(s, dlci, to, i);
    state::law_state_is_noted_in_its_slot(s, dlci, to, 0);
    state::law_state_is_noted_in_its_slot(s, dlci, to, 1);
    state::law_channel_is_found_where_it_is(s, dlci);
}

/// Words about a channel are the last record of its slot.
proof fn lemma_told(
    rt: RuntimeView,
    dir: Direction,
    dlci: u8,
    words: Seq<char>,
    now: u64,
    ts: Timestamp,
    i: int,
)
    requires
        rt.state.wf(),
        0 <= i < 2,
        rt.state.slots[i].dlci == Some(dlci),
        rt.state.cfg.max_records > 0,
    ensures
        says_last(rt.told(dir, dlci, words, now, ts), i, ts, dir, dlci, words),
{
    reveal(RuntimeView::recorded);
    let rec = RecordView::words(ts, dir, dlci, words);
    lemma_flushed(rt);
    let mid = rt.flushed();
    if let Some(p) = rt.pending {
        lemma_with_record_keeps(rt.state, p.record(), i);
    }
    lemma_emitted(mid, rec);
    state::law_record_is_shown_in_its_slot(mid.state, rec, i);
    assert(rt.told(dir, dlci, words, now, ts).state.slots[i].records.last() =~= rec);
}

/// Whether the last record of a slot is these words about its channel, and nothing is
/// being gathered behind it.
pub open spec fn says_last(
    rt: RuntimeView,
    i: int,
    ts: Timestamp,
    dir: Direction,
    dlci: u8,
    words: Seq<char>,
) -> bool {
    let records = rt.state.slots[i].records;
    &&& rt.pending is None
    &&& records.len() > 0
    &&& records.last() == (RecordView { ts, dir, dlci, bytes: Seq::empty(), note: Some(words) })
}

/// What a slot says of its channel: that it was opened, that it failed and why, and that
/// it was closed, each as its last record, behind all data that came before.
pub proof fn law_what_a_slot_says(
    rt: RuntimeView,
    dlci: u8,
    why: Seq<char>,
    now: u64,
    ts: Timestamp,
    i: int,
)
    requires
        rt.state.wf(),
        0 <= i < 2,
        rt.state.slots[i].dlci == Some(dlci),
        rt.state.cfg.max_records > 0,
    ensures
        says_last(
            rt.applied(ActionView::Opened(dlci), now, ts),
            i,
            ts,
            Direction::Info,
            dlci,
            "建链成功"@,
        ),
        says_last(
            rt.applied(ActionView::Failed(dlci, why), now, ts),
            i,
            ts,
            Direction::Error,
            dlci,
            "建链失败："@ + why,
        ),
        says_last(
            rt.applied(ActionView::Closed(dlci), now, ts),
            i,
            ts,
            Direction::Info,
            dlci,
            "通道已关闭"@,
        ),
{
    reveal(RuntimeView::applied);
    lemma_noted(rt.state, dlci, DlcState::Open, i);
    lemma_noted(rt.state, dlci, DlcState::Failed, i);
    lemma_noted(rt.state, dlci, DlcState::Closed, i);
    let up = rt.on(
        AppView { link: LinkState::Up, ..rt.state.with_dlc_state(dlci, DlcState::Open) },
    );
    lemma_told(up, Direction::Info, dlci, "建链成功"@, now, ts, i);
    let failed = rt.on(rt.state.with_dlc_state(dlci, DlcState::Failed));
    lemma_told(failed, Direction::Error, dlci, "建链失败："@ + why, now, ts, i);
    let down = rt.on(rt.state.with_dlc_state(dlci, DlcState::Closed));
    lemma_told(down, Direction::Info, dlci, "通道已关闭"@, now, ts, i);
}

/// What a slot says of what was asked of its channel: that data cannot be sent because
/// the channel is not open, and that it was asked to close.
pub proof fn law_what_a_slot_says_of_commands(
    rt: RuntimeView,
    dlci: u8,
    bytes: Seq<u8>,
    now: u64,
    ts: Timestamp,
    i: int,
)
    requires
        rt.state.wf(),
        0 <= i < 2,
        rt.state.slots[i].dlci == Some(dlci),
        rt.state.cfg.max_records > 0,
    ensures
        rt.session.state(dlci) != DlcState::Open ==> says_last(
            rt.after_command(CommandView::Send { dlci, bytes }, now, ts),
            i,
            ts,
            Direction::Error,
            dlci,
            "通道未建链，无法发送"@,
        ),
        says_last(
            rt.after_command(CommandView::CloseDlc { dlci }, now, ts),
            i,
            ts,
            Direction::Info,
            dlci,
            "请求关闭通道 (DISC)"@,
        ),
{
    lemma_told(rt, Direction::Error, dlci, "通道未建链，无法发送"@, now, ts, i);
    let words = "请求关闭通道 (DISC)"@;
    lemma_told(rt, Direction::Info, dlci, words, now, ts, i);
    let mid = rt.told(Direction::Info, dlci, words, now, ts).linked(rt.session.closed(dlci, now));
    let act = ActionView::Send(FrameView::disc(dlci));
    lemma_one_applied(mid, act, now, ts);
    reveal(RuntimeView::applied);
    lemma_sent(mid, FrameView::disc(dlci), ts);
}

proof fn lemma_one_applied(a: RuntimeView, act: ActionView, now: u64, ts: Timestamp)
    ensures
        a.applied_all(seq![act], now, ts) == a.applied(act, now, ts),
{
    reveal_with_fuel(RuntimeView::applied_all, 2);
    assert(seq![act].drop_last() =~= Seq::empty());
}

/// Data that comes in on a channel, and data that is sent on it, is heard there: what was
/// heard on the channel in that direction grows by just these bytes. This is so as long as
/// the slot has room.
pub proof fn law_data_is_heard(
    rt: RuntimeView,
    f: FrameView,
    dlci: u8,
    bytes: Seq<u8>,
    now: u64,
    ts: Timestamp,
    i: nat,
)
    requires
        rt.state.slot_of(dlci) == Some(i),
        rt.state.slots[i as int].records.len() + 2 <= rt.state.cfg.max_records,
        rt.state.cfg.merge_window == 0 ==> rt.pending is None,
    ensures
        f.ftype == FrameType::Uih && f.dlci == dlci && dlci != 0 ==> guarantees::heard(
            rt.after_event(EventView::Frame(f), now, ts),
            dlci,
            Direction::Rx,
        ) == guarantees::heard(rt, dlci, Direction::Rx) + f.info,
        rt.session.state(dlci) == DlcState::Open ==> guarantees::heard(
            rt.after_command(CommandView::Send { dlci, bytes }, now, ts),
            dlci,
            Direction::Tx,
        ) == guarantees::heard(rt, dlci, Direction::Tx) + bytes,
{
    if f.ftype == FrameType::Uih && f.dlci == dlci && dlci != 0 {
        let mid = rt.counted(1, 0, 0).seen(RawView::of_frame(ts, f, false)).linked(
            rt.session.after_frame(f),
        );
        let act = ActionView::Data(dlci, f.info);
        assert(rt.session.frame_actions(f) =~= seq![act]);
        lemma_one_applied(mid, act, now, ts);
        reveal(RuntimeView::applied);
        let rec = RecordView::data(ts, Direction::Rx, dlci, f.info);
        guarantees::law_gathering_loses_nothing(mid, rec, now, dlci, Direction::Rx, i);
    }
    if rt.session.state(dlci) == DlcState::Open {
        let rec = RecordView::data(ts, Direction::Tx, dlci, bytes);
        let mid = rt.recorded(rec, now);
        guarantees::law_gathering_loses_nothing(rt, rec, now, dlci, Direction::Tx, i);
        let act = ActionView::Send(FrameView::uih(dlci, bytes));
        assert(rt.session.data_actions(dlci, bytes) =~= seq![act]);
        lemma_one_applied(mid, act, now, ts);
        reveal(RuntimeView::applied);
        reveal(RuntimeView::sent);
    }
}

/// What is said at the bottom: that the line failed and why, which control command was
/// sent, and how it went with the log.
pub proof fn law_what_is_said_at_the_bottom(
    rt: RuntimeView,
    why: Seq<char>,
    path: Seq<char>,
    dlci: u8,
    now: u64,
    ts: Timestamp,
)
    ensures
        rt.after_event(EventView::SerialError(why), now, ts).state.notice == Some(
            "串口错误："@ + why + " — 请退出并重启工具"@,
        ),
        rt.after_command(CommandView::SendMsc { dlci }, now, ts).state.notice == Some(
            "已发送 "@ + ControlView::Msc { dlci, signals: 0x8D }.described(),
        ),
        rt.after_command(CommandView::CloseMux, now, ts).state.notice == Some(
            "已发送 CLD，复用即将关闭"@,
        ),
        rt.logging ==> rt.after_command(CommandView::ToggleLog, now, ts).state.notice == Some(
            "已停止记录日志"@,
        ),
        rt.log_answered(path, Ok(())).state.notice == Some("正在记录到 "@ + path),
        rt.log_answered(path, Err(why)).state.notice == Some("无法打开日志文件："@ + why),
{
    lemma_sent(
        rt.noticed(
            "已发送 "@ + ControlView::Msc {
                dlci,
                signals: runtime::MSC_SIGNALS_READY,
            }.described(),
        ),
        runtime::control_frame(ControlView::Msc { dlci, signals: runtime::MSC_SIGNALS_READY }),
        ts,
    );
    lemma_sent(
        rt.noticed("已发送 CLD，复用即将关闭"@),
        runtime::control_frame(ControlView::Cld),
        ts,
    );
}

/// How the log is turned on and off. Off: what was logged is seen to the file, the file is
/// closed, and nothing is logged from then on. On: the file is asked for, under the name
/// that is known, else under one made of the time, and nothing is logged until it is open;
/// then it is, and the name is known. Where it cannot be opened nothing is logged.
pub proof fn law_turning_the_log_on_and_off(
    rt: RuntimeView,
    path: Seq<char>,
    why: Seq<char>,
    ts: Timestamp,
)
    ensures
        rt.logging ==> {
            let after = rt.log_toggled(ts);
            &&& !after.logging && after.log_path == rt.log_path
            &&& after.effects == rt.effects.push(EffectView::FlushLog).push(EffectView::CloseLog)
        },
        !rt.logging ==> {
            let after = rt.log_toggled(ts);
            &&& after == (RuntimeView { effects: after.effects, ..rt })
            &&& after.effects.len() == rt.effects.len() + 1
            &&& after.effects.take(rt.effects.len() as int) == rt.effects
            &&& after.effects.last() matches EffectView::OpenLog { path: at, first_line } && {
                &&& first_line == log::opening(ts)
                &&& rt.log_path matches Some(known) ==> at == known
                &&& rt.log_path is None ==> at == "cmux-"@ + crate::clock::strftime(
                    ts.secs(),
                    ts.nanos(),
                    "%Y%m%d-%H%M%S"@,
                ) + ".log"@
            }
        },
        ({
            let after = rt.log_answered(path, Ok(()));
            &&& after.logging && after.log_path == Some(path)
            &&& after.effects == rt.effects && after.session == rt.session
        }),
        ({
            let after = rt.log_answered(path, Err(why));
            &&& after.logging == rt.logging && after.log_path == rt.log_path
            &&& after.effects == rt.effects && after.session == rt.session
        }),
{
    if !rt.logging {
        let after = rt.log_toggled(ts);
        assert(after.effects.take(rt.effects.len() as int) =~= rt.effects);
    }
}

/// What the raw view keeps of bytes that are no frame: all of them, as they came, with
/// what is wrong, as received and as no good frame.
pub proof fn law_raw_view_keeps_what_is_no_frame(ts: Timestamp, what: Seq<char>, bytes: Seq<u8>)
    ensures
        ({
            let e = RawView::of_bad(ts, what, bytes);
            e.ts == ts && !e.outgoing && !e.ok && e.summary == what && e.bytes == bytes
        }),
{
}

/// A key does on the screen what it does there, and what it asks for is carried out; every
/// other event is taken as it is.
pub proof fn law_keys_are_carried_out(
    rt: RuntimeView,
    key: crate::app::keymap::KeyEvent,
    ev: EventView,
    now: u64,
    ts: Timestamp,
)
    ensures
        ({
            let (screen, cmd) = crate::app::keymap::pressed(rt.state, key);
            rt.dispatched(EventView::Key(key), now, ts) == RuntimeView {
                state: screen,
                ..rt
            }.after_command(cmd, now, ts)
        }),
        !(ev is Key) ==> rt.dispatched(ev, now, ts) == rt.after_event(ev, now, ts),
{
}

/// When the line fails every channel is shown as closed, and nothing else of the slots
/// changes: the records stay, and so does where each was scrolled to.
pub proof fn law_failed_line_keeps_the_records(
    rt: RuntimeView,
    why: Seq<char>,
    now: u64,
    ts: Timestamp,
    i: int,
)
    requires
        0 <= i < rt.state.slots.len(),
    ensures
        ({
            let after = rt.after_event(EventView::SerialError(why), now, ts);
            &&& after.state.slots.len() == rt.state.slots.len()
            &&& after.state.slots[i] == (SlotView {
                state: DlcState::Closed,
                ..rt.state.slots[i]
            })
            &&& after.state.link == LinkState::Down
            &&& after.state.raw_log == rt.state.raw_log && after.state.unrouted
                == rt.state.unrouted
            &&& after.pending == rt.pending
        }),
{
}

/// A channel that is asked for has its slot: the one it had, as it was but for how it
/// stands, or else the one asked for, with nothing in it but that it is being opened.
/// What was in that slot before is gone; the other slot stays.
pub proof fn law_what_opening_shows(
    rt: RuntimeView,
    dlci: u8,
    slot: usize,
    now: u64,
    ts: Timestamp,
)
    requires
        rt.state.wf(),
        slot < 2,
        rt.state.cfg.max_records > 0,
    ensures
        ({
            let after = rt.after_command(CommandView::OpenDlc { dlci, slot }, now, ts);
            let a = rt.state.slots;
            let i: int = if a[0].dlci == Some(dlci) {
                0
            } else if a[1].dlci == Some(dlci) {
                1
            } else {
                slot as int
            };
            let b = after.state.slots;
            &&& b.len() == 2
            &&& b[i].dlci == Some(dlci)
            &&& b[i].state == (DlcState::Opening { attempts: 1 })
            &&& says_last(after, i, ts, Direction::Info, dlci, "发起建链 (SABM)"@)
            &&& i != slot ==> b[slot as int].dlci is None
            &&& i == slot ==> b[1 - slot].dlci == a[1 - slot].dlci && b[1 - slot].state == a[1
                - slot].state
            &&& rt.pending is None && a[i].dlci != Some(dlci) ==> b[i].records.len() == 1
            &&& after.state.link == rt.state.link && after.state.notice == rt.state.notice
        }),
{
    reveal(RuntimeView::opening);
    let s = rt.state;
    let to = DlcState::Opening { attempts: 1 };
    let i: int = if s.slots[0].dlci == Some(dlci) {
        0
    } else if s.slots[1].dlci == Some(dlci) {
        1
    } else {
        slot as int
    };
    state::law_cleared_slot_is_given(s, dlci, slot as int, to);
    state::law_channel_is_found_where_it_is(s, dlci);
    let freed = match s.slots[slot as int].dlci {
        Some(existing) if existing != dlci => rt.on(s.unbound(existing)),
        _ => rt,
    };
    if let Some(existing) = s.slots[slot as int].dlci {
        state::law_binding_takes_one_slot(s, existing, slot as int, 0);
        state::law_binding_takes_one_slot(s, existing, slot as int, 1);
        state::law_channel_is_found_where_it_is(s, existing);
    }
    assert(freed.state.wf());
    state::law_binding_takes_one_slot(freed.state, dlci, slot as int, 0);
    state::law_binding_takes_one_slot(freed.state, dlci, slot as int, 1);
    state::law_channel_is_found_where_it_is(freed.state, dlci);
    let put = freed.state.bound_in(dlci, slot as int);
    assert(put.wf());
    lemma_noted(put, dlci, to, 0);
    lemma_noted(put, dlci, to, 1);
    let mid = freed.on(put.with_dlc_state(dlci, to));
    let words = "发起建链 (SABM)"@;
    let rec = RecordView::words(ts, Direction::Info, dlci, words);
    lemma_told(mid, Direction::Info, dlci, words, now, ts, i);
    lemma_recorded(mid, rec, now);
    lemma_recorded_keeps(mid, rec, now, 0);
    lemma_recorded_keeps(mid, rec, now, 1);
    let bound = mid.told(Direction::Info, dlci, words, now, ts);
    let on = bound.linked(rt.session.opened(dlci, now));
    let act = ActionView::Send(FrameView::sabm(dlci));
    lemma_one_applied(on, act, now, ts);
    reveal(RuntimeView::applied);
    lemma_sent(on, FrameView::sabm(dlci), ts);
    if rt.pending is None && s.slots[i].dlci != Some(dlci) {
        reveal(RuntimeView::recorded);
        lemma_flushed(mid);
        lemma_emitted(mid.flushed(), rec);
        state::law_record_is_shown_in_its_slot(mid.state, rec, i);
    }
}

} // verus!
