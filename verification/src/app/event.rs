//! What passes between the threads. All of it is plain data.
use crate::app::keymap::KeyEvent;
use crate::mux::decoder::{DecodeEvent, DecodeEventView};
use crate::mux::frame::{Frame, FrameView};
use vstd::prelude::*;

verus! {

/// What comes in to the main loop.
#[derive(Debug)]
pub enum Event {
    /// A whole frame.
    Frame(Frame),
    /// A frame whose check byte is wrong, with its bytes.
    FcsError(Vec<u8>),
    /// Bytes outside any frame.
    Garbage(Vec<u8>),
    /// A key.
    Key(KeyEvent),
    /// The serial line failed and counts as gone.
    SerialError(String),
    /// Time has passed.
    Tick,
}

/// What an [`Event`] holds.
#[verifier::ext_equal]
pub enum EventView {
    Frame(FrameView),
    FcsError(Seq<u8>),
    Garbage(Seq<u8>),
    Key(KeyEvent),
    SerialError(Seq<char>),
    Tick,
}

impl View for Event {
    type V = EventView;

    open spec fn view(&self) -> EventView {
        match self {
            Event::Frame(f) => EventView::Frame(f@),
            Event::FcsError(raw) => EventView::FcsError(raw@),
            Event::Garbage(bytes) => EventView::Garbage(bytes@),
            Event::Key(key) => EventView::Key(*key),
            Event::SerialError(why) => EventView::SerialError(why@),
            Event::Tick => EventView::Tick,
        }
    }
}

impl EventView {
    /// The event for something that came out of the decoder.
    pub open spec fn of_decoded(e: DecodeEventView) -> EventView {
        match e {
            DecodeEventView::Frame(f) => EventView::Frame(f),
            DecodeEventView::FcsError { raw } => EventView::FcsError(raw),
            DecodeEventView::Garbage(bytes) => EventView::Garbage(bytes),
        }
    }
}

impl Event {
    /// The event for something that came out of the decoder.
    pub fn decoded(e: DecodeEvent) -> (ev: Event)
        ensures
            ev@ == EventView::of_decoded(e@),
    {
        match e {
            DecodeEvent::Frame(f) => Event::Frame(f),
            DecodeEvent::FcsError { raw } => Event::FcsError(raw),
            DecodeEvent::Garbage(bytes) => Event::Garbage(bytes),
        }
    }
}

/// What goes out to the writing thread.
#[derive(Debug)]
pub enum TxRequest {
    /// Send a frame.
    Frame(Frame),
    /// Write these bytes as they are.
    Raw(Vec<u8>),
    /// Stop.
    Shutdown,
}

/// What a [`TxRequest`] holds.
#[verifier::ext_equal]
pub enum TxView {
    Frame(FrameView),
    Raw(Seq<u8>),
    Shutdown,
}

impl View for TxRequest {
    type V = TxView;

    open spec fn view(&self) -> TxView {
        match self {
            TxRequest::Frame(f) => TxView::Frame(f@),
            TxRequest::Raw(bytes) => TxView::Raw(bytes@),
            TxRequest::Shutdown => TxView::Shutdown,
        }
    }
}

impl TxView {
    /// What is written for the request; nothing more is once it says to stop.
    pub open spec fn wire(self) -> Option<Seq<u8>> {
        match self {
            TxView::Frame(f) => Some(f.wire()),
            TxView::Raw(bytes) => Some(bytes),
            TxView::Shutdown => None,
        }
    }
}

impl TxRequest {
    /// The bytes to write, or `None` to stop.
    pub fn into_bytes(self) -> (r: Option<Vec<u8>>)
        ensures
            match r {
                Some(bytes) => self@.wire() == Some(bytes@),
                None => self@.wire() is None,
            },
    {
        match self {
            TxRequest::Frame(f) => Some(f.encode()),
            TxRequest::Raw(bytes) => Some(bytes),
            TxRequest::Shutdown => None,
        }
    }
}

/// What came out of the decoder is handed on as it is.
pub proof fn law_decoded_is_handed_on(f: FrameView, bytes: Seq<u8>)
    ensures
        EventView::of_decoded(DecodeEventView::Frame(f)) == EventView::Frame(f),
        EventView::of_decoded(DecodeEventView::FcsError { raw: bytes }) == EventView::FcsError(
            bytes,
        ),
        EventView::of_decoded(DecodeEventView::Garbage(bytes)) == EventView::Garbage(bytes),
{
}

/// What is written for a request: a frame between its flags, raw bytes as they are, and
/// nothing once it says to stop.
pub proof fn law_what_is_written(f: FrameView, bytes: Seq<u8>)
    ensures
        TxView::Frame(f).wire() == Some(f.wire()),
        TxView::Raw(bytes).wire() == Some(bytes),
        TxView::Shutdown.wire() is None,
{
}

} // verus!
