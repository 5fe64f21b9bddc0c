//! What the reading thread makes of each read.
use crate::app::event::{Event, EventView};
#[allow(unused_imports)]
use crate::mux::decoder;
use crate::mux::decoder::{DecodeEventView, FrameDecoder};
use crate::serial::stream::StreamError;
use vstd::prelude::*;

verus! {

/// What the reading thread does next.
#[derive(Debug, Clone, Copy, PartialEq, Eq, Structural)]
pub enum ReaderNext {
    /// Read on at once.
    ReadOn,
    /// Wait a little, then read on.
    Pause,
    /// Stop.
    Stop,
}

/// What a list of events holds.
pub open spec fn event_views(events: Seq<Event>) -> Seq<EventView> {
    events.map_values(|e: Event| e@)
}

/// The events for what came out of the decoder.
pub open spec fn of_decoded(events: Seq<DecodeEventView>) -> Seq<EventView> {
    events.map_values(|e: DecodeEventView| EventView::of_decoded(e))
}

/// Takes the outcome of a read: runs new bytes through the decoder and hands on
/// what comes out of it. Nothing in time is the usual thing; a failure is handed
/// on and ends the reading.
pub fn reader_step(decoder: &mut FrameDecoder, got: Result<Vec<u8>, StreamError>) -> (r: (
    Vec<Event>,
    ReaderNext,
))
    ensures
        old(decoder)@.wf() ==> final(decoder)@.wf(),
        match got {
            Ok(bytes) if bytes@.len() > 0 => {
                &&& final(decoder)@ == old(decoder)@.run(bytes@).0
                &&& event_views(r.0@) == of_decoded(old(decoder)@.run(bytes@).1)
                &&& r.1 == ReaderNext::ReadOn
            },
            Err(e) if !e.timed_out => {
                &&& final(decoder)@ == old(decoder)@
                &&& event_views(r.0@) == seq![EventView::SerialError(e.why@)]
                &&& r.1 == ReaderNext::Stop
            },
            _ => {
                &&& final(decoder)@ == old(decoder)@
                &&& event_views(r.0@) == Seq::<EventView>::empty()
                &&& r.1 == ReaderNext::Pause
            },
        },
{
    let mut events: Vec<Event> = Vec::new();
    assert(event_views(events@) =~= Seq::empty());
    match got {
        Ok(bytes) => {
            if bytes.len() == 0 {
                return (events, ReaderNext::Pause);
            }
            let decoded = decoder.push(bytes.as_slice());
            let ghost views = decoder::event_views(decoded@);
            for e in it: decoded
                invariant
                    decoder::event_views(it.seq()) == views,
                    event_views(events@) == of_decoded(views.take(it.index())),
            {
                let ghost shown = events@;
                let ghost i = it.index();
                assert(views[i] == e@);
                events.push(Event::decoded(e));
                assert(event_views(events@) =~= event_views(shown).push(events@.last()@));
                assert(of_decoded(views.take(i + 1)) =~= of_decoded(views.take(i)).push(
                    EventView::of_decoded(views[i]),
                ));
            }
            assert(views.take(views.len() as int) =~= views);
            (events, ReaderNext::ReadOn)
        },
        Err(e) => {
            if e.timed_out {
                return (events, ReaderNext::Pause);
            }
            events.push(Event::SerialError(e.why));
            assert(event_views(events@) =~= seq![EventView::SerialError(e.why@)]);
            (events, ReaderNext::Stop)
        },
    }
}

/// Each thing that came out of the decoder becomes one event, in the same order.
pub proof fn law_every_decoded_thing_is_an_event(decoded: Seq<DecodeEventView>, i: int)
    requires
        0 <= i < decoded.len(),
    ensures
        of_decoded(decoded).len() == decoded.len(),
        of_decoded(decoded)[i] == (match decoded[i] {
            DecodeEventView::Frame(f) => EventView::Frame(f),
            DecodeEventView::FcsError { raw } => EventView::FcsError(raw),
            DecodeEventView::Garbage(bytes) => EventView::Garbage(bytes),
        }),
{
}

} // verus!
