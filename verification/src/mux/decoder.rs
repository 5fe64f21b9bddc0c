//! Cuts the byte stream of the serial line into frames, piece by piece.
//!
//! Bad data never stalls the decoder: whatever cannot be read as a frame is
//! reported as it is, and the search for the next flag goes on.
use crate::mux::fcs;
#[allow(unused_imports)]
use crate::mux::frame;
use crate::mux::frame::{copy_bytes, Frame, FrameType, FrameView, FLAG};
use vstd::prelude::*;

verus! {

/// What the decoder found.
#[derive(Debug, PartialEq, Eq)]
pub enum DecodeEvent {
    /// A frame.
    Frame(Frame),
    /// A body that has the structure of a frame but the wrong check byte.
    FcsError { raw: Vec<u8> },
    /// Bytes that form no frame.
    Garbage(Vec<u8>),
}

/// What a [`DecodeEvent`] holds.
#[verifier::ext_equal]
pub enum DecodeEventView {
    Frame(FrameView),
    FcsError { raw: Seq<u8> },
    Garbage(Seq<u8>),
}

impl View for DecodeEvent {
    type V = DecodeEventView;

    open spec fn view(&self) -> DecodeEventView {
        match self {
            DecodeEvent::Frame(f) => DecodeEventView::Frame(f@),
            DecodeEvent::FcsError { raw } => DecodeEventView::FcsError { raw: raw@ },
            DecodeEvent::Garbage(bytes) => DecodeEventView::Garbage(bytes@),
        }
    }
}

impl Clone for DecodeEvent {
    fn clone(&self) -> (e: Self)
        ensures
            e@ == self@,
    {
        match self {
            DecodeEvent::Frame(f) => DecodeEvent::Frame(f.clone()),
            DecodeEvent::FcsError { raw } => DecodeEvent::FcsError { raw: copy_bytes(raw) },
            DecodeEvent::Garbage(bytes) => DecodeEvent::Garbage(copy_bytes(bytes)),
        }
    }
}

/// The contents of a list of events.
pub open spec fn event_views(events: Seq<DecodeEvent>) -> Seq<DecodeEventView> {
    events.map_values(|e: DecodeEvent| e@)
}

/// The length that a body announces, and how many bytes its header takes.
pub open spec fn announced(raw: Seq<u8>) -> Option<(nat, nat)> {
    if raw.len() < 4 {
        None
    } else if raw[2] % 2 == 1 {
        Some(((raw[2] / 2) as nat, 3))
    } else if raw.len() < 5 {
        None
    } else {
        Some(((raw[2] / 2 + raw[3] * 128) as nat, 4))
    }
}

/// What the bytes between two flags are. They are a frame only when the
/// announced length is allowed and is the length at hand, the control byte is
/// known, and the check byte fits.
pub open spec fn body_event(max_info: nat, raw: Seq<u8>) -> DecodeEventView {
    match (announced(raw), FrameType::of_control(raw[1])) {
        (Some((n, h)), Some((ftype, pf))) if n <= max_info && raw.len() == h + n + 1 => {
            let covered = if ftype == FrameType::Uih {
                raw.take(h as int)
            } else {
                raw.take((h + n) as int)
            };
            if raw.last() == fcs::fcs_of(covered) {
                DecodeEventView::Frame(
                    FrameView {
                        dlci: raw[0] / 4,
                        cr: raw[0] / 2 % 2 == 1,
                        pf,
                        ftype,
                        info: raw.subrange(h as int, (h + n) as int),
                    },
                )
            } else {
                DecodeEventView::FcsError { raw }
            }
        },
        _ => DecodeEventView::Garbage(raw),
    }
}

/// Whether no byte is a flag.
pub open spec fn no_flags(bytes: Seq<u8>) -> bool {
    forall|i: int| 0 <= i < bytes.len() ==> #[trigger] bytes[i] != FLAG
}

/// The state of a [`FrameDecoder`].
#[verifier::ext_equal]
pub struct DecoderView {
    /// The longest information field that is accepted.
    pub max_info: nat,
    /// Whether a flag has been seen and a body is being collected.
    pub in_frame: bool,
    /// The body collected so far.
    pub buf: Seq<u8>,
    /// Bytes outside any frame that were not reported yet.
    pub garbage: Seq<u8>,
}

impl DecoderView {
    pub open spec fn initial(max_info: nat) -> DecoderView {
        DecoderView { max_info, in_frame: false, buf: Seq::empty(), garbage: Seq::empty() }
    }

    /// The state and the events after one more byte.
    pub open spec fn step(self, b: u8) -> (DecoderView, Seq<DecodeEventView>) {
        if !self.in_frame && b == FLAG {
            (
                DecoderView { in_frame: true, buf: Seq::empty(), garbage: Seq::empty(), ..self },
                if self.garbage.len() == 0 {
                    Seq::empty()
                } else {
                    seq![DecodeEventView::Garbage(self.garbage)]
                },
            )
        } else if !self.in_frame {
            let garbage = self.garbage.push(b);
            if garbage.len() >= 256 {
                (
                    DecoderView { garbage: Seq::empty(), ..self },
                    seq![DecodeEventView::Garbage(garbage)],
                )
            } else {
                (DecoderView { garbage, ..self }, Seq::empty())
            }
        } else if b == FLAG {
            if self.buf.len() == 0 {
                (self, Seq::empty())
            } else {
                (
                    DecoderView { buf: Seq::empty(), ..self },
                    seq![body_event(self.max_info, self.buf)],
                )
            }
        } else {
            let buf = self.buf.push(b);
            if buf.len() > self.max_info + 8 {
                (
                    DecoderView { buf: Seq::empty(), in_frame: false, ..self },
                    seq![DecodeEventView::Garbage(buf)],
                )
            } else {
                (DecoderView { buf, ..self }, Seq::empty())
            }
        }
    }

    /// The state and the events after a run of bytes.
    pub open spec fn run(self, bytes: Seq<u8>) -> (DecoderView, Seq<DecodeEventView>)
        decreases bytes.len(),
    {
        if bytes.len() == 0 {
            (self, Seq::empty())
        } else {
            let (mid, before) = self.run(bytes.drop_last());
            let (end, after) = mid.step(bytes.last());
            (end, before + after)
        }
    }

    /// What every reachable state keeps: nothing is collected outside a frame
    /// and nothing waits as garbage inside one, both stores are bounded, and no flag
    /// is in either.
    pub open spec fn wf(self) -> bool {
        &&& self.in_frame ==> self.garbage.len() == 0
        &&& !self.in_frame ==> self.buf.len() == 0
        &&& self.buf.len() <= self.max_info + 8
        &&& self.garbage.len() < 256
        &&& no_flags(self.buf)
        &&& no_flags(self.garbage)
    }

    /// The bytes taken in and not reported yet.
    pub open spec fn held(self) -> Seq<u8> {
        self.garbage + self.buf
    }
}

/// The incremental frame decoder.
pub struct FrameDecoder {
    max_info: usize,
    buf: Vec<u8>,
    in_frame: bool,
    garbage: Vec<u8>,
}

impl View for FrameDecoder {
    type V = DecoderView;

    closed spec fn view(&self) -> DecoderView {
        DecoderView {
            max_info: self.max_info as nat,
            in_frame: self.in_frame,
            buf: self.buf@,
            garbage: self.garbage@,
        }
    }
}

impl FrameDecoder {
    /// A decoder that has seen nothing, for information fields of up to
    /// `max_info` bytes.
    pub fn new(max_info: usize) -> (d: Self)
        ensures
            d@ == DecoderView::initial(max_info as nat),
    {
        FrameDecoder {
            max_info,
            buf: Vec::with_capacity(512),
            in_frame: false,
            garbage: Vec::new(),
        }
    }

    /// Takes in some bytes and gives every event that they complete.
    pub fn push(&mut self, bytes: &[u8]) -> (events: Vec<DecodeEvent>)
        ensures
            (final(self)@, event_views(events@)) == old(self)@.run(bytes@),
            old(self)@.wf() ==> final(self)@.wf(),
    {
        let mut events: Vec<DecodeEvent> = Vec::new();
        assert(event_views(events@) =~= Seq::<DecodeEventView>::empty());
        let ghost start = self@;
        for i in 0..bytes.len()
            invariant
                (self@, event_views(events@)) == start.run(bytes@.take(i as int)),
                start.wf() ==> self@.wf(),
        {
            let ghost seen = bytes@.take(i + 1);
            assert(seen.drop_last() =~= bytes@.take(i as int));
            self.accept(bytes[i], &mut events);
        }
        assert(bytes@.take(bytes@.len() as int) =~= bytes@);
        events
    }

    /// Takes in one byte and appends what it completes to `events`.
    fn accept(&mut self, b: u8, events: &mut Vec<DecodeEvent>)
        ensures
            final(self)@ == old(self)@.step(b).0,
            event_views(final(events)@) == event_views(old(events)@) + old(self)@.step(b).1,
            old(self)@.wf() ==> final(self)@.wf(),
    {
        if !self.in_frame {
            if b == FLAG {
                self.in_frame = true;
                self.buf.clear();
                self.flush_garbage(events);
            } else {
                self.garbage.push(b);
                if self.garbage.len() >= 256 {
                    self.flush_garbage(events);
                } else {
                    assert(event_views(events@) =~= event_views(events@) + Seq::empty());
                }
            }
            return;
        }
        if b == FLAG {
            if self.buf.len() == 0 {
                // Flags in a row, or a flag shared by two frames.
                assert(event_views(events@) =~= event_views(events@) + Seq::empty());
                return;
            }
            let mut raw: Vec<u8> = Vec::new();
            std::mem::swap(&mut raw, &mut self.buf);
            self.decode_body(raw, events);
            // The closing flag also opens the next frame.
            return;
        }
        self.buf.push(b);
        // A false length field must not make the body grow without end.
        if self.buf.len() > 8 && self.buf.len() - 8 > self.max_info {
            let mut raw: Vec<u8> = Vec::new();
            std::mem::swap(&mut raw, &mut self.buf);
            push_event(events, DecodeEvent::Garbage(raw));
            self.in_frame = false;
        } else {
            assert(event_views(events@) =~= event_views(events@) + Seq::empty());
        }
    }

    /// Reports the collected garbage, if there is any.
    fn flush_garbage(&mut self, events: &mut Vec<DecodeEvent>)
        ensures
            final(self)@ == (DecoderView { garbage: Seq::empty(), ..old(self)@ }),
            event_views(final(events)@) == event_views(old(events)@) + (if old(
                self,
            )@.garbage.len() == 0 {
                Seq::empty()
            } else {
                seq![DecodeEventView::Garbage(old(self)@.garbage)]
            }),
    {
        if self.garbage.len() > 0 {
            let mut bytes: Vec<u8> = Vec::new();
            std::mem::swap(&mut bytes, &mut self.garbage);
            push_event(events, DecodeEvent::Garbage(bytes));
        } else {
            assert(event_views(events@) =~= event_views(events@) + Seq::empty());
        }
        assert(self@ =~= DecoderView { garbage: Seq::empty(), ..old(self)@ });
    }

    /// Reads the bytes between two flags.
    fn decode_body(&self, raw: Vec<u8>, events: &mut Vec<DecodeEvent>)
        ensures
            event_views(final(events)@) == event_views(old(events)@).push(
                body_event(self@.max_info, raw@),
            ),
    {
        // Address, control, length and check byte at least.
        if raw.len() < 4 {
            push_event(events, DecodeEvent::Garbage(raw));
            return;
        }
        let address: u8 = raw[0];
        let control: u8 = raw[1];
        let l0: u8 = raw[2];
        assert((l0 & 1 != 0) == (l0 % 2 == 1)) by (bit_vector);
        assert(l0 >> 1 == l0 / 2) by (bit_vector);

        let info_len: usize;
        let header_len: usize;
        if l0 & 0x01 != 0 {
            info_len = (l0 >> 1) as usize;
            header_len = 3;
        } else {
            if raw.len() < 5 {
                push_event(events, DecodeEvent::Garbage(raw));
                return;
            }
            let l1: u8 = raw[3];
            assert((((l0 >> 1) as usize) & 0x7F) | ((l1 as usize) << 7) == l0 / 2 + l1 * 128)
                by (bit_vector);
            info_len = (((l0 >> 1) as usize) & 0x7F) | ((l1 as usize) << 7);
            header_len = 4;
        }
        if info_len > self.max_info || raw.len() != header_len + info_len + 1 {
            push_event(events, DecodeEvent::Garbage(raw));
            return;
        }
        let (ftype, pf) = match FrameType::from_control(control) {
            Some(found) => found,
            None => {
                push_event(events, DecodeEvent::Garbage(raw));
                return;
            },
        };

        let header = vstd::slice::slice_subrange(raw.as_slice(), 0, header_len);
        let info = vstd::slice::slice_subrange(raw.as_slice(), header_len, header_len + info_len);
        let received: u8 = raw[header_len + info_len];

        let ok = if ftype == FrameType::Uih {
            assert(header@ =~= raw@.take(header_len as int));
            fcs::check(header, received)
        } else {
            let covered = vstd::slice::slice_subrange(raw.as_slice(), 0, header_len + info_len);
            assert(covered@ =~= raw@.take(header_len + info_len));
            fcs::check(covered, received)
        };
        if !ok {
            push_event(events, DecodeEvent::FcsError { raw });
            return;
        }
        assert(address >> 2 == address / 4) by (bit_vector);
        assert((address & 0x02 != 0) == (address / 2 % 2 == 1)) by (bit_vector);
        let f = Frame {
            dlci: address >> 2,
            cr: address & 0x02 != 0,
            pf,
            ftype,
            info: vstd::slice::slice_to_vec(info),
        };
        push_event(events, DecodeEvent::Frame(f));
    }
}

/// Appends one event.
fn push_event(events: &mut Vec<DecodeEvent>, e: DecodeEvent)
    ensures
        event_views(final(events)@) == event_views(old(events)@).push(e@),
        event_views(final(events)@) == event_views(old(events)@) + seq![e@],
{
    events.push(e);
    assert(event_views(events@) =~= event_views(old(events)@).push(e@));
    assert(event_views(events@) =~= event_views(old(events)@) + seq![e@]);
}

/// Whether a frame can be told from its bytes on the wire: the DLCI fits its six
/// bits, the length its fifteen bits and the accepted size, and no byte between
/// the flags is itself a flag. The Basic mode has no escape for such a byte.
pub open spec fn decodable(f: FrameView, max_info: nat) -> bool {
    &&& f.dlci < 64
    &&& f.info.len() <= max_info
    &&& f.info.len() < 32768
    &&& !f.body().contains(FLAG)
}

/// Whether bytes are what an event was made of: garbage is these bytes, and a frame or
/// a check failure is what they are as a body.
pub open spec fn made_of(max_info: nat, raw: Seq<u8>, e: DecodeEventView) -> bool {
    match e {
        DecodeEventView::Garbage(bytes) => bytes == raw,
        _ => e == body_event(max_info, raw),
    }
}

/// Pieces put together.
pub open spec fn joined(pieces: Seq<Seq<u8>>) -> Seq<u8>
    decreases pieces.len(),
{
    if pieces.len() == 0 {
        Seq::empty()
    } else {
        joined(pieces.drop_last()) + pieces.last()
    }
}

/// The bytes of a sequence that are no flags.
pub open spec fn without_flags(bytes: Seq<u8>) -> Seq<u8>
    decreases bytes.len(),
{
    if bytes.len() == 0 {
        Seq::empty()
    } else if bytes.last() == FLAG {
        without_flags(bytes.drop_last())
    } else {
        without_flags(bytes.drop_last()).push(bytes.last())
    }
}

/// The frames of a list on the wire, one after the other.
pub open spec fn wires(frames: Seq<FrameView>) -> Seq<u8>
    decreases frames.len(),
{
    if frames.len() == 0 {
        Seq::empty()
    } else {
        wires(frames.drop_last()) + frames.last().wire()
    }
}

/// How the stream is cut into pushes makes no difference: taking in `a` and then
/// `b` ends in the same state and gives the same events as taking in both at once.
pub proof fn law_pushes_compose(s: DecoderView, a: Seq<u8>, b: Seq<u8>)
    ensures
        s.run(a + b).0 == s.run(a).0.run(b).0,
        s.run(a + b).1 == s.run(a).1 + s.run(a).0.run(b).1,
    decreases b.len(),
{
    if b.len() == 0 {
        assert(a + b =~= a);
        assert(s.run(a).1 + Seq::empty() =~= s.run(a).1);
    } else {
        assert((a + b).drop_last() =~= a + b.drop_last());
        law_pushes_compose(s, a, b.drop_last());
        let mid = s.run(a).0;
        let last = mid.run(b.drop_last()).0.step(b.last()).1;
        assert((s.run(a).1 + mid.run(b.drop_last()).1) + last =~= s.run(a).1 + (mid.run(
            b.drop_last(),
        ).1 + last));
    }
}

/// One byte keeps the bounds.
proof fn lemma_step_keeps_wf(s: DecoderView, b: u8)
    requires
        s.wf(),
    ensures
        s.step(b).0.wf(),
        s.step(b).0.max_info == s.max_info,
{
}

/// From a well-formed state every input leads to a well-formed state: what the
/// decoder holds stays bounded whatever comes in.
pub proof fn law_run_keeps_wf(s: DecoderView, bytes: Seq<u8>)
    requires
        s.wf(),
    ensures
        s.run(bytes).0.wf(),
        s.run(bytes).0.max_info == s.max_info,
    decreases bytes.len(),
{
    if bytes.len() > 0 {
        law_run_keeps_wf(s, bytes.drop_last());
        lemma_step_keeps_wf(s.run(bytes.drop_last()).0, bytes.last());
    }
}

/// After a flag the decoder stands at the start of a frame, whatever came before.
pub proof fn law_flag_synchronises(s: DecoderView)
    requires
        s.wf(),
    ensures
        s.step(FLAG).0 == (DecoderView {
            in_frame: true,
            buf: Seq::empty(),
            garbage: Seq::empty(),
            max_info: s.max_info,
        }),
{
    assert(s.step(FLAG).0 =~= DecoderView {
        in_frame: true,
        buf: Seq::empty(),
        garbage: Seq::empty(),
        max_info: s.max_info,
    });
}

/// Inside a frame, bytes that are no flags are collected as long as they fit.
proof fn lemma_collect(s: DecoderView, bytes: Seq<u8>)
    requires
        s.in_frame,
        s.buf.len() + bytes.len() <= s.max_info + 8,
        !bytes.contains(FLAG),
    ensures
        s.run(bytes).0 == (DecoderView { buf: s.buf + bytes, ..s }),
        s.run(bytes).1 == Seq::<DecodeEventView>::empty(),
    decreases bytes.len(),
{
    if bytes.len() == 0 {
        assert(s.buf + bytes =~= s.buf);
    } else {
        let rest = bytes.drop_last();
        assert forall|i: int| 0 <= i < rest.len() implies rest[i] != FLAG by {
            assert(rest[i] == bytes[i]);
        }
        assert(bytes.last() != FLAG);
        lemma_collect(s, rest);
        assert((s.buf + rest).push(bytes.last()) =~= s.buf + bytes);
    }
}

/// The body of a decodable frame reads back as that frame.
proof fn lemma_body_reads_back(f: FrameView, max_info: nat)
    requires
        f.dlci < 64,
        f.info.len() <= max_info,
        f.info.len() < 32768,
    ensures
        body_event(max_info, f.body()) == DecodeEventView::Frame(f),
{
    let raw = f.body();
    let n = f.info.len();
    let h = f.header().len();
    assert(raw[0] == f.address());
    assert(raw[1] == f.ftype.control(f.pf));
    assert(raw[2] == frame::length_field(n)[0]);
    if n > 127 {
        assert(raw[3] == frame::length_field(n)[1]);
    }
    frame::law_length_field_is_exact(n);
    frame::law_address_holds_dlci(f);
    frame::law_control_byte_roundtrip(f.ftype, f.pf, 0);
    assert(announced(raw) == Some((n, h)));
    assert(raw.take(h as int) =~= f.header());
    assert(raw.take((h + n) as int) =~= f.header() + f.info);
    assert(raw.subrange(h as int, (h + n) as int) =~= f.info);
}

/// Reading gives back what was written: a decodable frame on the wire is reported
/// as that very frame, after whatever the opening flag completes, and the decoder
/// is ready for the next one. This holds from every state, so a damaged stream is
/// in step again with the next frame.
pub proof fn law_frame_roundtrip(s: DecoderView, f: FrameView)
    requires
        s.wf(),
        decodable(f, s.max_info),
    ensures
        s.run(f.wire()).1 == s.step(FLAG).1.push(DecodeEventView::Frame(f)),
        s.run(f.wire()).0 == s.step(FLAG).0,
{
    let body = f.body();
    let open = seq![FLAG];
    let s1 = s.step(FLAG).0;
    law_flag_synchronises(s);
    assert(open.drop_last() =~= Seq::empty());
    assert(s.run(open.drop_last()) == (s, Seq::<DecodeEventView>::empty()));
    assert(Seq::<DecodeEventView>::empty() + s.step(FLAG).1 =~= s.step(FLAG).1);
    assert(s.run(open) == (s1, s.step(FLAG).1));
    lemma_collect(s1, body);
    assert(s1.buf + body =~= body);
    law_pushes_compose(s, open, body);
    let before = s.run(open + body);
    assert(before.1 =~= s.step(FLAG).1);
    assert(f.wire().drop_last() =~= open + body);
    lemma_body_reads_back(f, s.max_info);
    assert(before.0.step(FLAG).0 =~= s1);
    assert(before.1 + seq![DecodeEventView::Frame(f)] =~= s.step(FLAG).1.push(
        DecodeEventView::Frame(f),
    ));
}

/// Frames in a row come out as these frames in this order, with nothing between.
pub proof fn law_frames_in_a_row(max_info: nat, frames: Seq<FrameView>)
    requires
        forall|i: int| 0 <= i < frames.len() ==> decodable(#[trigger] frames[i], max_info),
    ensures
        DecoderView::initial(max_info).run(wires(frames)).1 == frames.map_values(
            |f: FrameView| DecodeEventView::Frame(f),
        ),
{
    lemma_frames_in_a_row(max_info, frames);
}

proof fn lemma_frames_in_a_row(max_info: nat, frames: Seq<FrameView>)
    requires
        forall|i: int| 0 <= i < frames.len() ==> decodable(#[trigger] frames[i], max_info),
    ensures
        DecoderView::initial(max_info).run(wires(frames)).1 == frames.map_values(
            |f: FrameView| DecodeEventView::Frame(f),
        ),
        ({
            let end = DecoderView::initial(max_info).run(wires(frames)).0;
            end.garbage.len() == 0 && end.buf.len() == 0 && end.max_info == max_info
        }),
    decreases frames.len(),
{
    let s = DecoderView::initial(max_info);
    let wrap = |f: FrameView| DecodeEventView::Frame(f);
    if frames.len() == 0 {
        assert(frames.map_values(wrap) =~= Seq::empty());
    } else {
        let front = frames.drop_last();
        assert forall|i: int| 0 <= i < front.len() implies decodable(
            #[trigger] front[i],
            max_info,
        ) by {
            assert(front[i] == frames[i]);
        }
        lemma_frames_in_a_row(max_info, front);
        law_pushes_compose(s, wires(front), frames.last().wire());
        law_run_keeps_wf(s, wires(front));
        let mid = s.run(wires(front)).0;
        law_frame_roundtrip(mid, frames.last());
        assert(mid.step(FLAG).1 =~= Seq::empty());
        law_flag_synchronises(mid);
        assert(s.run(wires(frames)).1 =~= front.map_values(wrap).push(wrap(frames.last())));
        assert(front.map_values(wrap).push(wrap(frames.last())) =~= frames.map_values(wrap));
    }
}

/// Two frames may share the flag between them: leaving out the second frame's
/// opening flag changes nothing.
pub proof fn law_shared_flag(s: DecoderView, f: FrameView, g: FrameView)
    requires
        s.wf(),
        decodable(f, s.max_info),
        decodable(g, s.max_info),
    ensures
        s.run(f.wire() + g.wire().drop_first()) == s.run(f.wire() + g.wire()),
{
    let mid = s.run(f.wire()).0;
    law_frame_roundtrip(s, f);
    law_flag_synchronises(s);
    let open = seq![FLAG];
    let tail = g.wire().drop_first();
    assert(open + tail =~= g.wire());
    assert(open.drop_last() =~= Seq::empty());
    assert(mid.run(open.drop_last()) == (mid, Seq::<DecodeEventView>::empty()));
    assert(mid.run(open).1 =~= Seq::empty());
    assert(mid.run(open).0 =~= mid);
    law_pushes_compose(mid, open, tail);
    assert(Seq::<DecodeEventView>::empty() + mid.run(tail).1 =~= mid.run(tail).1);
    law_pushes_compose(s, f.wire(), tail);
    law_pushes_compose(s, f.wire(), g.wire());
}

/// A frame whose check byte was altered (into anything but a flag) is reported
/// with its bytes as a check failure, and the decoder is ready for the next frame.
pub proof fn law_wrong_check_byte_is_reported(s: DecoderView, f: FrameView, wrong: u8)
    requires
        s.wf(),
        decodable(f, s.max_info),
        wrong != fcs::fcs_of(f.checked()),
        wrong != FLAG,
    ensures
        ({
            let raw = f.body().drop_last().push(wrong);
            let wire = (seq![FLAG] + raw).push(FLAG);
            &&& s.run(wire).1 == s.step(FLAG).1.push(DecodeEventView::FcsError { raw })
            &&& s.run(wire).0 == s.step(FLAG).0
        }),
{
    let good = f.body();
    let raw = good.drop_last().push(wrong);
    let wire = (seq![FLAG] + raw).push(FLAG);
    let open = seq![FLAG];
    let s1 = s.step(FLAG).0;
    let n = f.info.len();
    let h = f.header().len();
    assert forall|i: int| 0 <= i < raw.len() implies raw[i] != FLAG by {
        if i < raw.len() - 1 {
            assert(raw[i] == good[i]);
        }
    }
    lemma_body_reads_back(f, s.max_info);
    assert(good.take(h as int) =~= f.header());
    assert(good.take((h + n) as int) =~= f.header() + f.info);
    assert(raw.take(h as int) =~= good.take(h as int));
    assert(raw.take((h + n) as int) =~= good.take((h + n) as int));
    assert(raw[0] == good[0] && raw[1] == good[1] && raw[2] == good[2]);
    frame::law_length_field_is_exact(n);
    frame::law_control_byte_roundtrip(f.ftype, f.pf, 0);
    assert(good[1] == f.ftype.control(f.pf));
    if n > 127 {
        assert(raw[3] == good[3]);
    }
    assert(announced(raw) == announced(good));
    assert(body_event(s.max_info, raw) == DecodeEventView::FcsError { raw });

    law_flag_synchronises(s);
    assert(open.drop_last() =~= Seq::empty());
    assert(s.run(open.drop_last()) == (s, Seq::<DecodeEventView>::empty()));
    assert(Seq::<DecodeEventView>::empty() + s.step(FLAG).1 =~= s.step(FLAG).1);
    lemma_collect(s1, raw);
    assert(s1.buf + raw =~= raw);
    law_pushes_compose(s, open, raw);
    let before = s.run(open + raw);
    assert(before.1 =~= s.step(FLAG).1);
    assert(wire.drop_last() =~= open + raw);
    assert(before.0.step(FLAG).0 =~= s1);
    assert(before.1 + seq![DecodeEventView::FcsError { raw }] =~= s.step(FLAG).1.push(
        DecodeEventView::FcsError { raw },
    ));
}

/// Whether an event has a size that it can have: a frame has a DLCI of six bits and an
/// information field of the accepted size, a check failure the length of a body,
/// and garbage at least one byte and no more than the decoder holds; there is no flag
/// in what is reported as it came.
pub open spec fn bounded(e: DecodeEventView, max_info: nat) -> bool {
    match e {
        DecodeEventView::Frame(f) => f.dlci < 64 && f.info.len() <= max_info,
        DecodeEventView::FcsError { raw } => 4 <= raw.len() <= max_info + 5 && no_flags(raw),
        DecodeEventView::Garbage(bytes) => {
            &&& 1 <= bytes.len()
            &&& bytes.len() <= 256 || bytes.len() <= max_info + 9
            &&& no_flags(bytes)
        },
    }
}

/// Every event that comes out has a size that it can have, whatever went in.
pub proof fn law_events_are_bounded(s: DecoderView, bytes: Seq<u8>, i: int)
    requires
        s.wf(),
        0 <= i < s.run(bytes).1.len(),
    ensures
        bounded(s.run(bytes).1[i], s.max_info),
    decreases bytes.len(),
{
    if bytes.len() > 0 {
        let front = bytes.drop_last();
        let before = s.run(front).1;
        law_run_keeps_wf(s, front);
        if i < before.len() {
            law_events_are_bounded(s, front, i);
        } else {
            let mid = s.run(front).0;
            assert(s.run(bytes).1[i] == mid.step(bytes.last()).1[i - before.len()]);
        }
    }
}

/// What each event was made of, in order.
spec fn sources(s: DecoderView, bytes: Seq<u8>) -> Seq<Seq<u8>>
    decreases bytes.len(),
{
    if bytes.len() == 0 {
        Seq::empty()
    } else {
        let front = bytes.drop_last();
        let mid = s.run(front).0;
        let before = sources(s, front);
        if mid.step(bytes.last()).1.len() == 0 {
            before
        } else if bytes.last() == FLAG {
            before.push(mid.held())
        } else {
            before.push(mid.held().push(bytes.last()))
        }
    }
}

proof fn lemma_sources(s: DecoderView, bytes: Seq<u8>)
    requires
        s.wf(),
    ensures
        sources(s, bytes).len() == s.run(bytes).1.len(),
        forall|i: int|
            0 <= i < s.run(bytes).1.len() ==> made_of(
                s.max_info,
                sources(s, bytes)[i],
                #[trigger] s.run(bytes).1[i],
            ),
        joined(sources(s, bytes)) + s.run(bytes).0.held() == s.held() + without_flags(bytes),
    decreases bytes.len(),
{
    if bytes.len() == 0 {
        assert(joined(sources(s, bytes)) + s.held() =~= s.held());
        assert(s.held() + without_flags(bytes) =~= s.held());
    } else {
        let front = bytes.drop_last();
        let b = bytes.last();
        let (mid, before) = s.run(front);
        let (end, after) = mid.step(b);
        let events = s.run(bytes).1;
        let old = sources(s, front);
        let new = sources(s, bytes);
        lemma_sources(s, front);
        law_run_keeps_wf(s, front);
        assert(events =~= before + after);
        let held = if b == FLAG {
            mid.held()
        } else {
            mid.held().push(b)
        };
        if after.len() == 0 {
            assert(events =~= before);
            assert(end.held() =~= held);
        } else {
            assert(new.drop_last() =~= old);
            assert(new.last() == held);
            assert(end.held() =~= Seq::empty());
            assert(mid.in_frame ==> mid.held() =~= mid.buf);
            assert(!mid.in_frame ==> mid.held() =~= mid.garbage);
            assert(mid.in_frame && b != FLAG ==> held =~= mid.buf.push(b));
            assert(!mid.in_frame && b != FLAG ==> held =~= mid.garbage.push(b));
            assert(made_of(s.max_info, held, after[0]));
            assert forall|i: int| 0 <= i < events.len() implies made_of(
                s.max_info,
                new[i],
                #[trigger] events[i],
            ) by {
                if i < before.len() {
                    assert(events[i] == before[i]);
                    assert(new[i] == old[i]);
                }
            }
        }
        assert(joined(new) + end.held() =~= joined(old) + held);
        if b != FLAG {
            assert(joined(old) + held =~= (joined(old) + mid.held()).push(b));
            assert((s.held() + without_flags(front)).push(b) =~= s.held() + without_flags(
                front,
            ).push(b));
        }
    }
}

/// No byte is lost and none is made up: each event was made of certain bytes, and these
/// in the order of the events, followed by those still held, are the ones held before
/// and the bytes taken in, in order and without the flags.
pub proof fn law_no_byte_is_lost(s: DecoderView, bytes: Seq<u8>)
    requires
        s.wf(),
    ensures
        exists|raws: Seq<Seq<u8>>|
            {
                &&& raws.len() == s.run(bytes).1.len()
                &&& forall|i: int|
                    0 <= i < s.run(bytes).1.len() ==> made_of(
                        s.max_info,
                        raws[i],
                        #[trigger] s.run(bytes).1[i],
                    )
                &&& #[trigger] joined(raws) + s.run(bytes).0.held() == s.held() + without_flags(
                    bytes,
                )
            },
{
    lemma_sources(s, bytes);
    assert(joined(sources(s, bytes)) + s.run(bytes).0.held() == s.held() + without_flags(bytes));
}

/// Which bodies are frames, said of the bytes alone. A body is address, control byte,
/// one or two bytes of length, exactly as many bytes as these announce, and one check
/// byte; the control byte is one of the ten, and the announced length is allowed. Such a
/// body is a frame of just these parts where the check byte is what polynomial division
/// leaves over, else a check failure with all of its bytes. Every other body, shorter or
/// longer than it announces, is garbage with all of its bytes.
pub proof fn law_only_whole_bodies_are_frames(max_info: nat, raw: Seq<u8>)
    ensures
        ({
            let h: int = if raw[2] % 2 == 1 {
                3
            } else {
                4
            };
            let n: int = raw[2] / 2 + (if h == 4 {
                raw[3] * 128
            } else {
                0
            });
            let c: int = if raw[1] / 16 % 2 == 1 {
                raw[1] - 16
            } else {
                raw[1] as int
            };
            let whole = raw.len() > h && raw.len() == h + n + 1 && n <= max_info && (c == 0x2F || c
                == 0x63 || c == 0x0F || c == 0x43 || c == 0xEF);
            let covered = raw.subrange(
                0,
                if c == 0xEF {
                    h
                } else {
                    h + n
                },
            );
            let checked = fcs::is_multiple(covered, raw[h + n]);
            let e = body_event(max_info, raw);
            &&& !whole ==> e == DecodeEventView::Garbage(raw)
            &&& whole && !checked ==> e == (DecodeEventView::FcsError { raw })
            &&& whole && checked ==> (e matches DecodeEventView::Frame(f) && {
                &&& f.dlci == raw[0] / 4
                &&& f.cr == (raw[0] / 2 % 2 == 1)
                &&& f.pf == (raw[1] / 16 % 2 == 1)
                &&& c == (match f.ftype {
                    FrameType::Sabm => 0x2Fint,
                    FrameType::Ua => 0x63,
                    FrameType::Dm => 0x0F,
                    FrameType::Disc => 0x43,
                    FrameType::Uih => 0xEF,
                })
                &&& f.info.len() == n
                &&& forall|i: int| 0 <= i < n ==> f.info[i] == #[trigger] raw[h + i]
            })
        }),
{
    let h: int = if raw[2] % 2 == 1 {
        3
    } else {
        4
    };
    let n: int = raw[2] / 2 + (if h == 4 {
        raw[3] * 128
    } else {
        0
    });
    if raw.len() > h && raw.len() == h + n + 1 {
        assert(raw.subrange(0, h) =~= raw.take(h));
        assert(raw.subrange(0, h + n) =~= raw.take(h + n));
        fcs::law_check_byte_is_the_remainder(raw.take(h), raw[h + n]);
        fcs::law_check_byte_is_the_remainder(raw.take(h + n), raw[h + n]);
    }
}

/// Only what encodes to these bytes is reported as a frame: a body whose address byte
/// has the EA bit and whose length takes no more bytes than it needs is the body of the
/// frame that is reported for it.
pub proof fn law_a_frame_encodes_to_its_body(max_info: nat, raw: Seq<u8>)
    requires
        raw[0] % 2 == 1,
        raw[2] % 2 == 1 || raw[3] > 0,
    ensures
        body_event(max_info, raw) matches DecodeEventView::Frame(f) ==> f.wire() == (seq![0xF9u8]
            + raw).push(0xF9),
{
    if let DecodeEventView::Frame(f) = body_event(max_info, raw) {
        let n = f.info.len();
        let h: int = if raw[2] % 2 == 1 {
            3
        } else {
            4
        };
        frame::law_control_byte_roundtrip(f.ftype, f.pf, raw[1]);
        assert(f.header() =~= raw.take(h));
        assert(f.header() + f.info =~= raw.take(h + n));
        assert(f.body() =~= raw);
    }
}

/// Whatever stands between two flags is read as one body, as long as it can be one: it
/// is reported once, behind what the opening flag ended, and the decoder stands at the
/// start of the next body.
pub proof fn law_what_lies_between_flags(s: DecoderView, raw: Seq<u8>)
    requires
        s.wf(),
        1 <= raw.len() <= s.max_info + 8,
        forall|i: int| 0 <= i < raw.len() ==> #[trigger] raw[i] != 0xF9,
    ensures
        s.run((seq![0xF9u8] + raw).push(0xF9)).1 == s.run(seq![0xF9u8]).1.push(
            body_event(s.max_info, raw),
        ),
        s.run((seq![0xF9u8] + raw).push(0xF9)).0 == (DecoderView {
            in_frame: true,
            buf: Seq::empty(),
            garbage: Seq::empty(),
            max_info: s.max_info,
        }),
{
    let open = seq![FLAG];
    let wire = (open + raw).push(FLAG);
    lemma_opening_flag(s);
    let s1 = s.run(open).0;
    lemma_collect(s1, raw);
    assert(s1.buf + raw =~= raw);
    law_pushes_compose(s, open, raw);
    assert(wire.drop_last() =~= open + raw);
    assert(s.run(open).1 + Seq::empty() =~= s.run(open).1);
    let before = s.run(open + raw);
    assert(before.0.step(FLAG).0 =~= s1);
    assert(before.1 + seq![body_event(s.max_info, raw)] =~= s.run(open).1.push(
        body_event(s.max_info, raw),
    ));
}

/// The opening flag ends what came before it: noise that waited is reported as it came,
/// a body that was begun is read, and a flag behind a flag ends nothing.
pub proof fn law_a_flag_ends_what_came_before(s: DecoderView)
    requires
        s.wf(),
    ensures
        s.run(seq![0xF9u8]).1 == (if s.in_frame && s.buf.len() > 0 {
            seq![body_event(s.max_info, s.buf)]
        } else if s.garbage.len() > 0 {
            seq![DecodeEventView::Garbage(s.garbage)]
        } else {
            Seq::empty()
        }),
{
    lemma_opening_flag(s);
}

/// A flag alone.
proof fn lemma_opening_flag(s: DecoderView)
    requires
        s.wf(),
    ensures
        s.run(seq![FLAG]) == s.step(FLAG),
        s.run(seq![FLAG]).0 == (DecoderView {
            in_frame: true,
            buf: Seq::empty(),
            garbage: Seq::empty(),
            max_info: s.max_info,
        }),
{
    let open = seq![FLAG];
    law_flag_synchronises(s);
    assert(open.drop_last() =~= Seq::empty());
    assert(s.run(open.drop_last()) == (s, Seq::<DecodeEventView>::empty()));
    assert(Seq::<DecodeEventView>::empty() + s.step(FLAG).1 =~= s.step(FLAG).1);
}

/// A body that is longer than any frame is given up: as soon as eight bytes more than
/// the longest information have gone by without a flag, the next one makes all of them
/// garbage, and the search for a flag begins anew. Until then nothing is reported.
pub proof fn law_endless_body_is_given_up(s: DecoderView, raw: Seq<u8>, b: u8)
    requires
        s.wf(),
        raw.len() == s.max_info + 8,
        forall|i: int| 0 <= i < raw.len() ==> #[trigger] raw[i] != 0xF9,
        b != 0xF9,
    ensures
        s.run(seq![0xF9u8] + raw).1 == s.run(seq![0xF9u8]).1,
        s.run((seq![0xF9u8] + raw).push(b)).1 == s.run(seq![0xF9u8]).1.push(
            DecodeEventView::Garbage(raw.push(b)),
        ),
        s.run((seq![0xF9u8] + raw).push(b)).0 == DecoderView::initial(s.max_info),
{
    let open = seq![FLAG];
    let wire = (open + raw).push(b);
    lemma_opening_flag(s);
    let s1 = s.run(open).0;
    lemma_collect(s1, raw);
    assert(s1.buf + raw =~= raw);
    law_pushes_compose(s, open, raw);
    assert(wire.drop_last() =~= open + raw);
    assert(s.run(open).1 + Seq::empty() =~= s.run(open).1);
    let before = s.run(open + raw);
    assert(before.0.step(b).0 =~= DecoderView::initial(s.max_info));
    assert(before.1 + seq![DecodeEventView::Garbage(raw.push(b))] =~= s.run(open).1.push(
        DecodeEventView::Garbage(raw.push(b)),
    ));
}

/// Noise before the first flag waits, and each time 256 bytes of it are together they
/// are reported as they came.
pub proof fn law_noise_is_reported_by_256(max_info: nat, noise: Seq<u8>)
    requires
        forall|i: int| 0 <= i < noise.len() ==> #[trigger] noise[i] != 0xF9,
    ensures
        ({
            let (end, events) = DecoderView::initial(max_info).run(noise);
            &&& events.len() == noise.len() / 256
            &&& forall|k: int|
                0 <= k < events.len() ==> #[trigger] events[k] == DecodeEventView::Garbage(
                    noise.subrange(256 * k, 256 * k + 256),
                )
            &&& !end.in_frame
            &&& end.buf.len() == 0
            &&& end.garbage == noise.skip(256 * events.len() as int)
            &&& end.max_info == max_info
        }),
    decreases noise.len(),
{
    let s = DecoderView::initial(max_info);
    if noise.len() == 0 {
        assert(noise.skip(0) =~= Seq::empty());
    } else {
        let front = noise.drop_last();
        let b = noise.last();
        assert forall|i: int| 0 <= i < front.len() implies #[trigger] front[i] != 0xF9 by {
            assert(front[i] == noise[i]);
        }
        law_noise_is_reported_by_256(max_info, front);
        assert(noise[noise.len() - 1] == b);
        let (mid, before) = s.run(front);
        let (end, events) = s.run(noise);
        let m = before.len() as int;
        assert(mid.garbage.push(b) =~= noise.skip(256 * m));
        assert(mid.garbage.len() == front.len() - 256 * m);
        if mid.garbage.len() == 255 {
            assert(noise.len() == 256 * m + 256);
            assert(noise.skip(256 * m) =~= noise.subrange(256 * m, 256 * m + 256));
            assert(end.garbage =~= noise.skip(256 * (m + 1)));
        } else {
            assert(events =~= before);
        }
        assert forall|k: int| 0 <= k < events.len() implies #[trigger] events[k]
            == DecodeEventView::Garbage(noise.subrange(256 * k, 256 * k + 256)) by {
            if k < m {
                assert(events[k] == before[k]);
                assert(front.subrange(256 * k, 256 * k + 256) =~= noise.subrange(
                    256 * k,
                    256 * k + 256,
                ));
            }
        }
    }
}

} // verus!
