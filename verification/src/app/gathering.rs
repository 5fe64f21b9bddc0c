//! How data that comes in pieces becomes records, however many pieces there are.
#[allow(unused_imports)]
use crate::app::event::EventView;
#[allow(unused_imports)]
use crate::app::record::{Direction, RecordView};
#[allow(unused_imports)]
use crate::app::runtime;
#[allow(unused_imports)]
use crate::app::runtime::{PendingView, RuntimeView};
#[allow(unused_imports)]
use crate::app::state;
#[allow(unused_imports)]
use crate::app::state::{RawView, SlotView};
#[allow(unused_imports)]
use crate::clock::Timestamp;
#[allow(unused_imports)]
use crate::mux::frame::FrameView;
#[allow(unused_imports)]
use crate::mux::session::ActionView;
use vstd::prelude::*;

verus! {

/// A piece of data, and when it came: on the clock that never goes back, and on the
/// wall.
#[verifier::ext_equal]
pub struct Piece {
    pub now: u64,
    pub ts: Timestamp,
    pub bytes: Seq<u8>,
}

/// Whether a piece comes within the window after the one before it.
pub open spec fn follows(pieces: Seq<Piece>, i: int, window: u64) -> bool {
    i > 0 && runtime::since(pieces[i - 1].now, pieces[i].now) <= window
}

/// The runs of pieces that follow each other within the window.
pub open spec fn runs(pieces: Seq<Piece>, window: u64) -> Seq<Seq<Piece>>
    decreases pieces.len(),
{
    if pieces.len() == 0 {
        Seq::empty()
    } else {
        let before = runs(pieces.drop_last(), window);
        if follows(pieces, pieces.len() - 1, window) {
            before.drop_last().push(before.last().push(pieces.last()))
        } else {
            before.push(seq![pieces.last()])
        }
    }
}

/// The bytes of pieces, put together.
pub open spec fn bytes_of(pieces: Seq<Piece>) -> Seq<u8>
    decreases pieces.len(),
{
    if pieces.len() == 0 {
        Seq::empty()
    } else {
        bytes_of(pieces.drop_last()) + pieces.last().bytes
    }
}

/// The record that a run becomes: its bytes in order, with the time of the first piece.
pub open spec fn run_record(run: Seq<Piece>, dir: Direction, dlci: u8) -> RecordView {
    RecordView::data(run[0].ts, dir, dlci, bytes_of(run))
}

/// The records that runs become, one each.
pub open spec fn run_records(runs: Seq<Seq<Piece>>, dir: Direction, dlci: u8) -> Seq<RecordView> {
    runs.map_values(|run: Seq<Piece>| run_record(run, dir, dlci))
}

/// Runs put together.
pub open spec fn all_pieces(runs: Seq<Seq<Piece>>) -> Seq<Piece>
    decreases runs.len(),
{
    if runs.len() == 0 {
        Seq::empty()
    } else {
        all_pieces(runs.drop_last()) + runs.last()
    }
}

/// The runs are all the pieces in order, none of them empty. Within a run each piece
/// comes within the window after the one before it, and the first of a run does not: no
/// run could be longer.
pub proof fn law_runs_are_maximal(pieces: Seq<Piece>, window: u64)
    ensures
        all_pieces(runs(pieces, window)) == pieces,
        forall|r: int|
            0 <= r < runs(pieces, window).len() ==> (#[trigger] runs(pieces, window)[r]).len() > 0,
        forall|r: int, i: int|
            0 <= r < runs(pieces, window).len() && 0 < i < runs(pieces, window)[r].len()
                ==> #[trigger] follows(runs(pieces, window)[r], i, window),
        forall|r: int|
            0 < r < runs(pieces, window).len() ==> runtime::since(
                (#[trigger] runs(pieces, window)[r - 1]).last().now,
                runs(pieces, window)[r][0].now,
            ) > window,
        pieces.len() > 0 ==> runs(pieces, window).len() > 0 && runs(pieces, window).last().last()
            == pieces.last(),
    decreases pieces.len(),
{
    if pieces.len() > 0 {
        let less = pieces.drop_last();
        let p = pieces.last();
        law_runs_are_maximal(less, window);
        let before = runs(less, window);
        let all = runs(pieces, window);
        if follows(pieces, pieces.len() - 1, window) {
            let last = before.last();
            assert(less.last() == pieces[pieces.len() - 2]);
            assert(all.drop_last() =~= before.drop_last());
            assert(all.last() == last.push(p));
            assert(all_pieces(before) == all_pieces(before.drop_last()) + last);
            assert(all_pieces(all) =~= all_pieces(before).push(p));
            assert forall|r: int, i: int|
                0 <= r < all.len() && 0 < i < all[r].len() implies #[trigger] follows(
                all[r],
                i,
                window,
            ) by {
                if r < all.len() - 1 {
                    assert(all[r] == before[r]);
                    assert(follows(before[r], i, window));
                } else if i < last.len() {
                    assert(follows(before[r], i, window));
                    assert(all[r][i] == last[i]);
                    assert(all[r][i - 1] == last[i - 1]);
                } else {
                    assert(all[r][i] == p);
                    assert(all[r][i - 1] == last.last());
                }
            }
            assert forall|r: int| 0 < r < all.len() implies runtime::since(
                (#[trigger] all[r - 1]).last().now,
                all[r][0].now,
            ) > window by {
                assert(all[r - 1] == before[r - 1]);
                assert(before[r].len() > 0);
                assert(all[r][0] == before[r][0]);
            }
        } else {
            assert(all.drop_last() =~= before);
            assert(all.last() =~= seq![p]);
            assert(all_pieces(all) =~= pieces);
            assert forall|r: int, i: int|
                0 <= r < all.len() && 0 < i < all[r].len() implies #[trigger] follows(
                all[r],
                i,
                window,
            ) by {
                assert(all[r] == before[r]);
                assert(follows(before[r], i, window));
            }
            assert forall|r: int| 0 < r < all.len() implies runtime::since(
                (#[trigger] all[r - 1]).last().now,
                all[r][0].now,
            ) > window by {
                assert(all[r - 1] == before[r - 1]);
                if r == before.len() {
                    assert(before[r - 1].last() == less.last());
                    assert(less.last() == pieces[pieces.len() - 2]);
                } else {
                    assert(all[r] == before[r]);
                }
            }
        }
        assert(less.push(p) =~= pieces);
    }
}

/// A runtime after pieces of data of one channel and direction came, one after the
/// other.
pub open spec fn after_data(rt: RuntimeView, dir: Direction, dlci: u8, pieces: Seq<Piece>) ->
    RuntimeView
    decreases pieces.len(),
{
    if pieces.len() == 0 {
        rt
    } else {
        let p = pieces.last();
        after_data(rt, dir, dlci, pieces.drop_last()).recorded(
            RecordView::data(p.ts, dir, dlci, p.bytes),
            p.now,
        )
    }
}

/// A runtime after frames with data for one channel came, one after the other.
pub open spec fn after_frames(rt: RuntimeView, dlci: u8, pieces: Seq<Piece>) -> RuntimeView
    decreases pieces.len(),
{
    if pieces.len() == 0 {
        rt
    } else {
        let p = pieces.last();
        after_frames(rt, dlci, pieces.drop_last()).after_event(
            EventView::Frame(FrameView::uih(dlci, p.bytes)),
            p.now,
            p.ts,
        )
    }
}

/// The lines of the raw view for frames with data.
pub open spec fn raw_lines(dlci: u8, pieces: Seq<Piece>) -> Seq<RawView> {
    pieces.map_values(|p: Piece| RawView::of_frame(p.ts, FrameView::uih(dlci, p.bytes), false))
}

/// What is being gathered where the last of some runs goes on.
pub open spec fn open_run(pieces: Seq<Piece>, window: u64, dir: Direction, dlci: u8) -> Option<
    PendingView,
> {
    if pieces.len() == 0 {
        None
    } else {
        let run = runs(pieces, window).last();
        Some(
            PendingView {
                dlci,
                dir,
                ts: run[0].ts,
                bytes: bytes_of(run),
                last: pieces.last().now,
            },
        )
    }
}

/// The records of the runs that are over.
pub open spec fn closed_runs(pieces: Seq<Piece>, window: u64, dir: Direction, dlci: u8) -> Seq<
    RecordView,
> {
    if pieces.len() == 0 {
        Seq::empty()
    } else {
        run_records(runs(pieces, window).drop_last(), dir, dlci)
    }
}

/// Slot `i` of `b` belongs to the channel as that of `a` does, and has the records of
/// that and some more, as far as there is room.
pub open spec fn gained(
    a: RuntimeView,
    b: RuntimeView,
    dlci: u8,
    i: nat,
    more: Seq<RecordView>,
) -> bool {
    &&& b.state.cfg == a.state.cfg
    &&& b.session == a.session
    &&& b.state.slot_of(dlci) == Some(i)
    &&& i < b.state.slots.len()
    &&& b.state.slots[i as int].records == state::latest(
        a.state.slots[i as int].records + more,
        a.state.cfg.max_records as nat,
    )
}

/// The lookup of a slot does not go by its records.
proof fn lemma_found_again(slots: Seq<SlotView>, dlci: u8, i: nat, slot: SlotView, from: nat)
    requires
        state::find_slot(slots, Some(dlci), from) == Some(i),
        slot.dlci == Some(dlci),
    ensures
        from <= i < slots.len(),
        slots[i as int].dlci == Some(dlci),
        state::find_slot(slots.update(i as int, slot), Some(dlci), from) == Some(i),
    decreases slots.len() - from,
{
    if from < slots.len() && slots[from as int].dlci != Some(dlci) {
        lemma_found_again(slots, dlci, i, slot, from + 1);
    }
}

/// One more record, handed out.
proof fn lemma_one_more_record(
    a: RuntimeView,
    b: RuntimeView,
    dlci: u8,
    i: nat,
    more: Seq<RecordView>,
    rec: RecordView,
)
    requires
        gained(a, b, dlci, i, more),
        rec.dlci == dlci,
    ensures
        gained(a, b.emitted(rec), dlci, i, more.push(rec)),
        b.emitted(rec).pending == b.pending,
        b.emitted(rec).state.raw_log == b.state.raw_log,
{
    reveal(RuntimeView::emitted);
    let cap = a.state.cfg.max_records as nat;
    let base = a.state.slots[i as int].records;
    let slot = b.state.slots[i as int].pushed(rec, cap);
    lemma_found_again(b.state.slots, dlci, i, SlotView::fresh(Some(dlci)), 0);
    lemma_found_again(b.state.slots, dlci, i, slot, 0);
    assert(base + more.push(rec) =~= (base + more).push(rec));
    assert(state::latest(state::latest(base + more, cap).push(rec), cap) =~= state::latest(
        (base + more).push(rec),
        cap,
    ));
}

/// The bytes of a lone piece.
proof fn lemma_lone_piece(p: Piece)
    ensures
        bytes_of(seq![p]) == p.bytes,
{
    reveal_with_fuel(bytes_of, 2);
    assert(seq![p].drop_last() =~= Seq::empty());
    assert(bytes_of(seq![p]) =~= p.bytes);
}

/// One more piece.
proof fn lemma_one_more_piece(
    a: RuntimeView,
    b: RuntimeView,
    dir: Direction,
    dlci: u8,
    i: nat,
    pieces: Seq<Piece>,
)
    requires
        pieces.len() > 0,
        a.state.cfg.merge_window > 0,
        gained(
            a,
            b,
            dlci,
            i,
            closed_runs(pieces.drop_last(), a.state.cfg.merge_window, dir, dlci),
        ),
        b.pending == open_run(pieces.drop_last(), a.state.cfg.merge_window, dir, dlci),
    ensures
        ({
            let p = pieces.last();
            let after = b.recorded(RecordView::data(p.ts, dir, dlci, p.bytes), p.now);
            &&& gained(a, after, dlci, i, closed_runs(pieces, a.state.cfg.merge_window, dir, dlci))
            &&& after.pending == open_run(pieces, a.state.cfg.merge_window, dir, dlci)
            &&& after.state.raw_log == b.state.raw_log
        }),
{
    reveal(RuntimeView::recorded);
    reveal(RuntimeView::flushed);
    let window = a.state.cfg.merge_window;
    let less = pieces.drop_last();
    let p = pieces.last();
    law_runs_are_maximal(less, window);
    let before = runs(less, window);
    let all = runs(pieces, window);
    if less.len() == 0 {
        assert(all.drop_last() =~= Seq::empty());
        assert(all.last() =~= seq![p]);
        lemma_lone_piece(p);
        assert(run_records(all.drop_last(), dir, dlci) =~= Seq::empty());
    } else {
        assert(less.last() == pieces[pieces.len() - 2]);
        let run = before.last();
        if follows(pieces, pieces.len() - 1, window) {
            assert(all.drop_last() =~= before.drop_last());
            assert(run.push(p).drop_last() =~= run);
            assert(bytes_of(run.push(p)) =~= bytes_of(run) + p.bytes);
            assert(run.push(p)[0] == run[0]);
        } else {
            assert(all.drop_last() =~= before);
            assert(all.last() =~= seq![p]);
            lemma_lone_piece(p);
            let rec = run_record(run, dir, dlci);
            let alone = RuntimeView { pending: None, ..b };
            assert(b.pending->0.record() =~= rec);
            lemma_one_more_record(a, alone, dlci, i, closed_runs(less, window, dir, dlci), rec);
            assert(run_records(before, dir, dlci) =~= run_records(
                before.drop_last(),
                dir,
                dlci,
            ).push(rec));
        }
    }
}

/// The end of the last run.
proof fn lemma_last_run(
    a: RuntimeView,
    b: RuntimeView,
    dir: Direction,
    dlci: u8,
    i: nat,
    pieces: Seq<Piece>,
)
    requires
        gained(a, b, dlci, i, closed_runs(pieces, a.state.cfg.merge_window, dir, dlci)),
        b.pending == open_run(pieces, a.state.cfg.merge_window, dir, dlci),
    ensures
        gained(
            a,
            b.flushed(),
            dlci,
            i,
            run_records(runs(pieces, a.state.cfg.merge_window), dir, dlci),
        ),
        b.flushed().pending is None,
        b.flushed().state.raw_log == b.state.raw_log,
{
    reveal(RuntimeView::flushed);
    let window = a.state.cfg.merge_window;
    let all = runs(pieces, window);
    if pieces.len() == 0 {
        assert(run_records(all, dir, dlci) =~= Seq::empty());
    } else {
        law_runs_are_maximal(pieces, window);
        let rec = run_record(all.last(), dir, dlci);
        assert(b.pending->0.record() =~= rec);
        lemma_one_more_record(
            a,
            RuntimeView { pending: None, ..b },
            dlci,
            i,
            closed_runs(pieces, window, dir, dlci),
            rec,
        );
        assert(run_records(all, dir, dlci) =~= run_records(all.drop_last(), dir, dlci).push(rec));
    }
}

/// To begin with, nothing was gained.
proof fn lemma_nothing_gained(rt: RuntimeView, dlci: u8, i: nat)
    requires
        rt.state.slot_of(dlci) == Some(i),
        rt.state.slots[i as int].records.len() <= rt.state.cfg.max_records,
    ensures
        gained(rt, rt, dlci, i, Seq::empty()),
{
    lemma_found_again(rt.state.slots, dlci, i, SlotView::fresh(Some(dlci)), 0);
    assert(rt.state.slots[i as int].records + Seq::<RecordView>::empty()
        =~= rt.state.slots[i as int].records);
}

/// However many pieces of data of one channel and direction come, sent or received:
/// those of each run that is over are one record on the screen, and those of the last
/// run are still being gathered. Once that is handed out there is one record for each
/// run.
pub proof fn law_runs_become_records(
    rt: RuntimeView,
    dir: Direction,
    dlci: u8,
    i: nat,
    pieces: Seq<Piece>,
)
    requires
        rt.state.slot_of(dlci) == Some(i),
        rt.state.slots[i as int].records.len() <= rt.state.cfg.max_records,
        rt.state.cfg.merge_window > 0,
        rt.pending is None,
    ensures
        ({
            let window = rt.state.cfg.merge_window;
            let on = after_data(rt, dir, dlci, pieces);
            &&& gained(rt, on, dlci, i, closed_runs(pieces, window, dir, dlci))
            &&& on.pending == open_run(pieces, window, dir, dlci)
            &&& gained(rt, on.flushed(), dlci, i, run_records(runs(pieces, window), dir, dlci))
            &&& on.flushed().pending is None
        }),
    decreases pieces.len(),
{
    lemma_nothing_gained(rt, dlci, i);
    if pieces.len() > 0 {
        law_runs_become_records(rt, dir, dlci, i, pieces.drop_last());
        let before = after_data(rt, dir, dlci, pieces.drop_last());
        lemma_one_more_piece(rt, before, dir, dlci, i, pieces);
    }
    lemma_last_run(rt, after_data(rt, dir, dlci, pieces), dir, dlci, i, pieces);
}

/// A frame with data is counted, goes into the raw view and is recorded.
proof fn lemma_frame_is_recorded(rt: RuntimeView, dlci: u8, p: Piece)
    requires
        dlci != 0,
    ensures
        rt.after_event(EventView::Frame(FrameView::uih(dlci, p.bytes)), p.now, p.ts) == rt.counted(
            1,
            0,
            0,
        ).seen(RawView::of_frame(p.ts, FrameView::uih(dlci, p.bytes), false)).recorded(
            RecordView::data(p.ts, Direction::Rx, dlci, p.bytes),
            p.now,
        ),
{
    let f = FrameView::uih(dlci, p.bytes);
    let acts = rt.session.frame_actions(f);
    assert(acts =~= seq![ActionView::Data(dlci, p.bytes)]);
    reveal_with_fuel(RuntimeView::applied_all, 2);
    assert(acts.drop_last() =~= Seq::empty());
    reveal(RuntimeView::applied);
    let b = rt.counted(1, 0, 0).seen(RawView::of_frame(p.ts, f, false));
    assert(b.linked(rt.session.after_frame(f)) =~= b);
}

/// One more line in the raw view.
proof fn lemma_one_more_line(old: Seq<RawView>, dlci: u8, pieces: Seq<Piece>, cap: nat)
    requires
        pieces.len() > 0,
    ensures
        state::latest(
            state::latest(old + raw_lines(dlci, pieces.drop_last()), cap).push(
                RawView::of_frame(
                    pieces.last().ts,
                    FrameView::uih(dlci, pieces.last().bytes),
                    false,
                ),
            ),
            cap,
        ) == state::latest(old + raw_lines(dlci, pieces), cap),
{
    let less = old + raw_lines(dlci, pieces.drop_last());
    let line = RawView::of_frame(
        pieces.last().ts,
        FrameView::uih(dlci, pieces.last().bytes),
        false,
    );
    assert(old + raw_lines(dlci, pieces) =~= less.push(line));
    assert(state::latest(state::latest(less, cap).push(line), cap) =~= state::latest(
        less.push(line),
        cap,
    ));
}

/// Frames while there is a window.
proof fn lemma_frames(rt: RuntimeView, dlci: u8, i: nat, pieces: Seq<Piece>)
    requires
        dlci != 0,
        rt.state.slot_of(dlci) == Some(i),
        rt.state.slots[i as int].records.len() <= rt.state.cfg.max_records,
        rt.state.raw_log.len() <= rt.state.cfg.max_records,
        rt.state.cfg.merge_window > 0,
        rt.pending is None,
    ensures
        ({
            let window = rt.state.cfg.merge_window;
            let on = after_frames(rt, dlci, pieces);
            &&& gained(rt, on, dlci, i, closed_runs(pieces, window, Direction::Rx, dlci))
            &&& on.pending == open_run(pieces, window, Direction::Rx, dlci)
            &&& on.state.raw_log == state::latest(
                rt.state.raw_log + raw_lines(dlci, pieces),
                rt.state.cfg.max_records as nat,
            )
        }),
    decreases pieces.len(),
{
    if pieces.len() == 0 {
        lemma_nothing_gained(rt, dlci, i);
        assert(rt.state.raw_log + raw_lines(dlci, pieces) =~= rt.state.raw_log);
    } else {
        let p = pieces.last();
        let cap = rt.state.cfg.max_records as nat;
        lemma_frames(rt, dlci, i, pieces.drop_last());
        let before = after_frames(rt, dlci, pieces.drop_last());
        lemma_frame_is_recorded(before, dlci, p);
        let b = before.counted(1, 0, 0).seen(
            RawView::of_frame(p.ts, FrameView::uih(dlci, p.bytes), false),
        );
        lemma_one_more_piece(rt, b, Direction::Rx, dlci, i, pieces);
        lemma_one_more_line(rt.state.raw_log, dlci, pieces, cap);
    }
}

/// Frames with data for a channel come, as many as there are, then a tick after the
/// window is over. The slot of the channel has one more record for each run of frames
/// that followed each other within the window, in order: the bytes of the run, with the
/// time of its first frame. The raw view has a line for each frame all the same.
pub proof fn law_frames_are_gathered(
    rt: RuntimeView,
    dlci: u8,
    i: nat,
    pieces: Seq<Piece>,
    tick: u64,
    ts: Timestamp,
)
    requires
        dlci != 0,
        rt.state.slot_of(dlci) == Some(i),
        rt.state.slots[i as int].records.len() <= rt.state.cfg.max_records,
        rt.state.raw_log.len() <= rt.state.cfg.max_records,
        rt.state.cfg.merge_window > 0,
        rt.pending is None,
        pieces.len() > 0,
        runtime::since(pieces.last().now, tick) > rt.state.cfg.merge_window,
    ensures
        ({
            let window = rt.state.cfg.merge_window;
            let on = after_frames(rt, dlci, pieces);
            let calm = on.flushed_if_stale(tick);
            let ticked = on.after_event(EventView::Tick, tick, ts);
            let shown = run_records(runs(pieces, window), Direction::Rx, dlci);
            &&& gained(rt, calm, dlci, i, shown)
            &&& calm.pending is None
            &&& calm.state.raw_log == state::latest(
                rt.state.raw_log + raw_lines(dlci, pieces),
                rt.state.cfg.max_records as nat,
            )
            &&& ticked == calm.linked(rt.session.ticked(tick)).applied_all(
                rt.session.tick_actions(tick),
                tick,
                ts,
            )
            &&& rt.session.tick_actions(tick).len() == 0 ==> ticked.state == calm.state
                && ticked.pending is None
        }),
{
    lemma_frames(rt, dlci, i, pieces);
    let on = after_frames(rt, dlci, pieces);
    reveal(RuntimeView::flushed_if_stale);
    lemma_last_run(rt, on, Direction::Rx, dlci, i, pieces);
}

/// Without a window each frame with data is a record of its own, on the screen at once,
/// and a line of the raw view.
pub proof fn law_frames_without_a_window(
    rt: RuntimeView,
    dlci: u8,
    i: nat,
    pieces: Seq<Piece>,
)
    requires
        dlci != 0,
        rt.state.slot_of(dlci) == Some(i),
        rt.state.slots[i as int].records.len() <= rt.state.cfg.max_records,
        rt.state.raw_log.len() <= rt.state.cfg.max_records,
        rt.state.cfg.merge_window == 0,
        rt.pending is None,
    ensures
        ({
            let on = after_frames(rt, dlci, pieces);
            &&& gained(
                rt,
                on,
                dlci,
                i,
                pieces.map_values(|p: Piece| RecordView::data(p.ts, Direction::Rx, dlci, p.bytes)),
            )
            &&& on.pending is None
            &&& on.state.raw_log == state::latest(
                rt.state.raw_log + raw_lines(dlci, pieces),
                rt.state.cfg.max_records as nat,
            )
        }),
    decreases pieces.len(),
{
    let each = |p: Piece| RecordView::data(p.ts, Direction::Rx, dlci, p.bytes);
    if pieces.len() == 0 {
        lemma_nothing_gained(rt, dlci, i);
        assert(pieces.map_values(each) =~= Seq::empty());
        assert(rt.state.raw_log + raw_lines(dlci, pieces) =~= rt.state.raw_log);
    } else {
        let p = pieces.last();
        let less = pieces.drop_last();
        law_frames_without_a_window(rt, dlci, i, less);
        let before = after_frames(rt, dlci, less);
        lemma_frame_is_recorded(before, dlci, p);
        let b = before.counted(1, 0, 0).seen(
            RawView::of_frame(p.ts, FrameView::uih(dlci, p.bytes), false),
        );
        reveal(RuntimeView::recorded);
        lemma_one_more_record(rt, b, dlci, i, less.map_values(each), each(p));
        assert(pieces.map_values(each) =~= less.map_values(each).push(each(p)));
        lemma_one_more_line(rt.state.raw_log, dlci, pieces, rt.state.cfg.max_records as nat);
    }
}

} // verus!
