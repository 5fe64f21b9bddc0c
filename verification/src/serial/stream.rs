//! What is asked of a serial line, and a stand-in for one.
use crate::mux::frame::copy_bytes;
use std::collections::VecDeque;
use vstd::prelude::*;
use vstd::slice::{slice_subrange, slice_to_vec};
use vstd::string::*;

verus! {

/// Why something could not be read or written.
#[derive(Debug)]
pub struct StreamError {
    /// Whether it only was not in time, which is no fault of the line.
    pub timed_out: bool,
    pub why: String,
}

/// What a [`StreamError`] holds.
#[verifier::ext_equal]
pub struct StreamErrorView {
    pub timed_out: bool,
    pub why: Seq<char>,
}

impl View for StreamError {
    type V = StreamErrorView;

    open spec fn view(&self) -> StreamErrorView {
        StreamErrorView { timed_out: self.timed_out, why: self.why@ }
    }
}

/// Something that was done with a stream, and how it went. What is laid down to be
/// read from a stand-in, and that it forgets, are among these.
#[verifier::ext_equal]
pub enum StreamStep {
    /// A read of up to so many bytes.
    Read(nat, Result<Seq<u8>, StreamErrorView>),
    Wrote(Seq<u8>, Result<(), StreamErrorView>),
    Flushed(Result<(), StreamErrorView>),
    /// A piece to be read was laid down; `None` for a read that gets nothing in time.
    Fed(Option<Seq<u8>>),
    /// What was written was forgotten.
    Forgot,
}

/// How a read went.
pub open spec fn read_view(r: Result<Vec<u8>, StreamError>) -> Result<Seq<u8>, StreamErrorView> {
    match r {
        Ok(bytes) => Ok(bytes@),
        Err(e) => Err(e@),
    }
}

/// How a write went.
pub open spec fn write_view(r: Result<(), StreamError>) -> Result<(), StreamErrorView> {
    match r {
        Ok(_) => Ok(()),
        Err(e) => Err(e@),
    }
}

/// A line that can be read from and written to, and that keeps account of it.
pub trait ByteStream {
    /// Everything that was done with the stream so far.
    spec fn trace(&self) -> Seq<StreamStep>;

    /// Reads up to `max` bytes, as many as there are.
    fn read(&mut self, max: usize) -> (r: Result<Vec<u8>, StreamError>)
        ensures
            final(self).trace() == old(self).trace().push(
                StreamStep::Read(max as nat, read_view(r)),
            ),
    ;

    /// Writes all the bytes.
    fn write_all(&mut self, bytes: &[u8]) -> (r: Result<(), StreamError>)
        ensures
            final(self).trace() == old(self).trace().push(
                StreamStep::Wrote(bytes@, write_view(r)),
            ),
    ;

    /// Sees that what was written is on its way.
    fn flush(&mut self) -> (r: Result<(), StreamError>)
        ensures
            final(self).trace() == old(self).trace().push(StreamStep::Flushed(write_view(r))),
    ;
}

/// Something that can be read from and written to. Nothing is asked of how it goes.
pub trait Port {
    /// Reads up to `max` bytes, as many as there are.
    fn read(&mut self, max: usize) -> Result<Vec<u8>, StreamError>;

    /// Writes all the bytes.
    fn write_all(&mut self, bytes: &[u8]) -> Result<(), StreamError>;

    /// Sees that what was written is on its way.
    fn flush(&mut self) -> Result<(), StreamError>;
}

/// A port, with an account of what was done with it.
pub struct Line<P: Port> {
    port: P,
    trace: Ghost<Seq<StreamStep>>,
}

impl<P: Port> Line<P> {
    /// The port.
    pub closed spec fn port(&self) -> P {
        self.port
    }

    /// A port with which nothing was done yet.
    pub fn new(port: P) -> (l: Line<P>)
        ensures
            l.port() == port,
            l.trace() == Seq::<StreamStep>::empty(),
    {
        Line { port, trace: Ghost(Seq::empty()) }
    }

    /// The port, without the account.
    pub fn into_port(self) -> (port: P)
        ensures
            port == self.port(),
    {
        self.port
    }
}

impl<P: Port> ByteStream for Line<P> {
    closed spec fn trace(&self) -> Seq<StreamStep> {
        self.trace@
    }

    fn read(&mut self, max: usize) -> (r: Result<Vec<u8>, StreamError>) {
        let r = self.port.read(max);
        self.trace = Ghost(self.trace@.push(StreamStep::Read(max as nat, read_view(r))));
        r
    }

    fn write_all(&mut self, bytes: &[u8]) -> (r: Result<(), StreamError>) {
        let r = self.port.write_all(bytes);
        self.trace = Ghost(self.trace@.push(StreamStep::Wrote(bytes@, write_view(r))));
        r
    }

    fn flush(&mut self) -> (r: Result<(), StreamError>) {
        let r = self.port.flush();
        self.trace = Ghost(self.trace@.push(StreamStep::Flushed(write_view(r))));
        r
    }
}

/// What a stand-in for a line holds.
#[verifier::ext_equal]
pub struct MockView {
    /// What is still to be read, one piece for each read; `None` for a read that gets
    /// nothing in time.
    pub to_read: Seq<Option<Seq<u8>>>,
    /// What was written since it was last forgotten.
    pub written: Seq<u8>,
}

/// What a read gets that gets nothing in time.
pub open spec fn silence() -> StreamErrorView {
    StreamErrorView { timed_out: true, why: "no data"@ }
}

impl MockView {
    /// Nothing to read and nothing written.
    pub open spec fn initial() -> MockView {
        MockView { to_read: Seq::empty(), written: Seq::empty() }
    }

    /// What a read of up to `max` bytes gets: the next piece, or as much of it as
    /// fits; silence where that was laid down, and when nothing is left.
    pub open spec fn next_read(self, max: nat) -> Result<Seq<u8>, StreamErrorView> {
        if self.to_read.len() == 0 {
            Err(silence())
        } else {
            match self.to_read[0] {
                Some(piece) => Ok(
                    if piece.len() <= max {
                        piece
                    } else {
                        piece.take(max as int)
                    },
                ),
                None => Err(silence()),
            }
        }
    }

    /// What is left after a read of up to `max` bytes.
    pub open spec fn after_read(self, max: nat) -> MockView {
        if self.to_read.len() == 0 {
            self
        } else {
            let rest = self.to_read.drop_first();
            match self.to_read[0] {
                Some(piece) if piece.len() > max => MockView {
                    to_read: seq![Some(piece.skip(max as int))] + rest,
                    ..self
                },
                _ => MockView { to_read: rest, ..self },
            }
        }
    }

    /// The stand-in after something was done with it.
    pub open spec fn after(self, step: StreamStep) -> MockView {
        match step {
            StreamStep::Read(max, _) => self.after_read(max),
            StreamStep::Wrote(bytes, _) => MockView { written: self.written + bytes, ..self },
            StreamStep::Flushed(_) => self,
            StreamStep::Fed(piece) => MockView { to_read: self.to_read.push(piece), ..self },
            StreamStep::Forgot => MockView { written: Seq::empty(), ..self },
        }
    }

    /// Whether something goes as it does with a stand-in: reads get what was laid
    /// down, and writing never fails.
    pub open spec fn grants(self, step: StreamStep) -> bool {
        match step {
            StreamStep::Read(max, r) => r == self.next_read(max),
            StreamStep::Wrote(_, r) => r is Ok,
            StreamStep::Flushed(r) => r is Ok,
            _ => true,
        }
    }
}

/// What a stand-in holds after everything that was done with it.
pub open spec fn replay(trace: Seq<StreamStep>) -> MockView
    decreases trace.len(),
{
    if trace.len() == 0 {
        MockView::initial()
    } else {
        replay(trace.drop_last()).after(trace.last())
    }
}

/// Whether everything went as it does with a stand-in.
pub open spec fn truthful(trace: Seq<StreamStep>) -> bool
    decreases trace.len(),
{
    trace.len() == 0 || {
        &&& truthful(trace.drop_last())
        &&& replay(trace.drop_last()).grants(trace.last())
    }
}

/// One more thing that was done.
proof fn lemma_one_more(trace: Seq<StreamStep>, step: StreamStep)
    ensures
        replay(trace.push(step)) == replay(trace).after(step),
        truthful(trace.push(step)) == (truthful(trace) && replay(trace).grants(step)),
{
    assert(trace.push(step).drop_last() =~= trace);
}

/// Each thing that was done went as it does with a stand-in that holds what was left
/// by what was done before.
pub proof fn law_stand_in_keeps_its_word(trace: Seq<StreamStep>, i: int)
    requires
        truthful(trace),
        0 <= i < trace.len(),
    ensures
        replay(trace.take(i)).grants(trace[i]),
        replay(trace.take(i + 1)) == replay(trace.take(i)).after(trace[i]),
    decreases trace.len(),
{
    lemma_one_more(trace.take(i), trace[i]);
    assert(trace.take(i).push(trace[i]) =~= trace.take(i + 1));
    if i == trace.len() - 1 {
        assert(trace.take(i) =~= trace.drop_last());
    } else {
        law_stand_in_keeps_its_word(trace.drop_last(), i);
        assert(trace.drop_last().take(i) =~= trace.take(i));
    }
}

/// What a stand-in is made of.
struct Script {
    /// One piece for each read; `None` for a read that gets nothing in time.
    to_read: VecDeque<Option<Vec<u8>>>,
    written: Vec<u8>,
    trace: Ghost<Seq<StreamStep>>,
}

/// What a piece to read holds.
spec fn piece_view(p: Option<Vec<u8>>) -> Option<Seq<u8>> {
    match p {
        Some(bytes) => Some(bytes@),
        None => None,
    }
}

impl Script {
    spec fn holds(self) -> MockView {
        MockView {
            to_read: self.to_read@.map_values(|p: Option<Vec<u8>>| piece_view(p)),
            written: self.written@,
        }
    }

    /// What it holds is what its account says.
    spec fn ok(self) -> bool {
        truthful(self.trace@) && replay(self.trace@) == self.holds()
    }

    /// Nothing to read and nothing written.
    fn blank() -> (s: Script)
        ensures
            s.ok(),
            s.trace@ == Seq::<StreamStep>::empty(),
    {
        let s = Script {
            to_read: VecDeque::new(),
            written: Vec::new(),
            trace: Ghost(Seq::empty()),
        };
        assert(s.holds() =~= MockView::initial());
        s
    }

    fn lay_down(&mut self, piece: Option<Vec<u8>>)
        requires
            old(self).ok(),
        ensures
            final(self).ok(),
            final(self).trace@ == old(self).trace@.push(StreamStep::Fed(piece_view(piece))),
    {
        let ghost step = StreamStep::Fed(piece_view(piece));
        proof {
            lemma_one_more(self.trace@, step);
        }
        self.to_read.push_back(piece);
        self.trace = Ghost(self.trace@.push(step));
        assert(self.holds() =~= old(self).holds().after(step));
    }

    fn forget(&mut self)
        requires
            old(self).ok(),
        ensures
            final(self).ok(),
            final(self).trace@ == old(self).trace@.push(StreamStep::Forgot),
    {
        proof {
            lemma_one_more(self.trace@, StreamStep::Forgot);
        }
        self.written.clear();
        self.trace = Ghost(self.trace@.push(StreamStep::Forgot));
        assert(self.holds() =~= old(self).holds().after(StreamStep::Forgot));
    }

    fn read(&mut self, max: usize) -> (r: Result<Vec<u8>, StreamError>)
        requires
            old(self).ok(),
        ensures
            final(self).ok(),
            final(self).trace@ == old(self).trace@.push(
                StreamStep::Read(max as nat, read_view(r)),
            ),
    {
        let ghost before = self.holds();
        let r = match self.to_read.pop_front() {
            None => Err(silent()),
            Some(None) => {
                assert(before.to_read[0] is None);
                Err(silent())
            },
            Some(Some(piece)) => {
                assert(before.to_read[0] == Some(piece@));
                if piece.len() <= max {
                    Ok(piece)
                } else {
                    let got = slice_to_vec(slice_subrange(piece.as_slice(), 0, max));
                    let left = slice_to_vec(slice_subrange(piece.as_slice(), max, piece.len()));
                    assert(got@ =~= piece@.take(max as int));
                    assert(left@ =~= piece@.skip(max as int));
                    self.to_read.push_front(Some(left));
                    Ok(got)
                }
            },
        };
        let ghost step = StreamStep::Read(max as nat, read_view(r));
        proof {
            lemma_one_more(self.trace@, step);
        }
        self.trace = Ghost(self.trace@.push(step));
        assert(self.holds() =~= before.after_read(max as nat));
        r
    }

    fn write(&mut self, bytes: &[u8])
        requires
            old(self).ok(),
        ensures
            final(self).ok(),
            final(self).trace@ == old(self).trace@.push(StreamStep::Wrote(bytes@, Ok(()))),
    {
        let ghost step = StreamStep::Wrote(bytes@, Ok(()));
        proof {
            lemma_one_more(self.trace@, step);
        }
        self.written.extend_from_slice(bytes);
        self.trace = Ghost(self.trace@.push(step));
        assert(self.holds() =~= old(self).holds().after(step));
    }

    fn flush(&mut self)
        requires
            old(self).ok(),
        ensures
            final(self).ok(),
            final(self).trace@ == old(self).trace@.push(StreamStep::Flushed(Ok(()))),
    {
        let ghost step = StreamStep::Flushed(Ok(()));
        proof {
            lemma_one_more(self.trace@, step);
        }
        self.trace = Ghost(self.trace@.push(step));
    }
}

/// The error of a read that gets nothing in time.
fn silent() -> (e: StreamError)
    ensures
        e@ == silence(),
{
    StreamError { timed_out: true, why: "no data".to_string() }
}

/// A line in memory: what will be read from it is laid down beforehand, and what
/// is written to it is kept. What it holds is what everything that was done with it
/// comes to.
pub struct MockStream {
    script: Script,
}

impl View for MockStream {
    type V = MockView;

    open spec fn view(&self) -> MockView {
        replay(self.trace())
    }
}

impl Default for MockStream {
    fn default() -> (s: Self)
        ensures
            s.trace() == Seq::<StreamStep>::empty(),
            s@ == MockView::initial(),
    {
        MockStream::new()
    }
}

impl MockStream {
    /// What it holds is what its account says, and everything went accordingly.
    #[verifier::type_invariant]
    pub closed spec fn in_step(self) -> bool {
        self.script.ok()
    }

    /// A line with nothing to read and nothing written.
    pub fn new() -> (s: MockStream)
        ensures
            s.trace() == Seq::<StreamStep>::empty(),
            s@ == MockView::initial(),
    {
        MockStream { script: Script::blank() }
    }

    /// Lays down a piece to be read.
    pub fn feed(&mut self, bytes: &[u8])
        ensures
            final(self).trace() == old(self).trace().push(StreamStep::Fed(Some(bytes@))),
            final(self)@ == (MockView {
                to_read: old(self)@.to_read.push(Some(bytes@)),
                ..old(self)@
            }),
    {
        proof {
            use_type_invariant(&*self);
            lemma_one_more(self.trace(), StreamStep::Fed(Some(bytes@)));
        }
        let mut script = Script::blank();
        std::mem::swap(&mut script, &mut self.script);
        script.lay_down(Some(slice_to_vec(bytes)));
        self.script = script;
    }

    /// Lays down a read that gets nothing in time.
    pub fn feed_timeout(&mut self)
        ensures
            final(self).trace() == old(self).trace().push(StreamStep::Fed(None)),
            final(self)@ == (MockView { to_read: old(self)@.to_read.push(None), ..old(self)@ }),
    {
        proof {
            use_type_invariant(&*self);
            lemma_one_more(self.trace(), StreamStep::Fed(None));
        }
        let mut script = Script::blank();
        std::mem::swap(&mut script, &mut self.script);
        script.lay_down(None);
        self.script = script;
    }

    /// Everything that was written since it was last forgotten. Whatever was done
    /// with the line went as it does with a stand-in.
    pub fn written(&self) -> (bytes: Vec<u8>)
        ensures
            bytes@ == self@.written,
            truthful(self.trace()),
    {
        proof {
            use_type_invariant(self);
        }
        copy_bytes(&self.script.written)
    }

    /// Forgets what was written.
    pub fn clear_written(&mut self)
        ensures
            final(self).trace() == old(self).trace().push(StreamStep::Forgot),
            final(self)@ == (MockView { written: Seq::empty(), ..old(self)@ }),
    {
        proof {
            use_type_invariant(&*self);
            lemma_one_more(self.trace(), StreamStep::Forgot);
        }
        let mut script = Script::blank();
        std::mem::swap(&mut script, &mut self.script);
        script.forget();
        self.script = script;
    }
}

/// Whatever was done with a stand-in went as it does with one.
pub proof fn law_stand_in_is_truthful(s: MockStream)
    requires
        s.in_step(),
    ensures
        truthful(s.trace()),
{
}

impl ByteStream for MockStream {
    closed spec fn trace(&self) -> Seq<StreamStep> {
        self.script.trace@
    }

    fn read(&mut self, max: usize) -> (r: Result<Vec<u8>, StreamError>)
        ensures
            read_view(r) == old(self)@.next_read(max as nat),
            final(self)@ == old(self)@.after_read(max as nat),
    {
        proof {
            use_type_invariant(&*self);
        }
        let mut script = Script::blank();
        std::mem::swap(&mut script, &mut self.script);
        let ghost before = script.trace@;
        let r = script.read(max);
        proof {
            lemma_one_more(before, StreamStep::Read(max as nat, read_view(r)));
        }
        self.script = script;
        r
    }

    fn write_all(&mut self, bytes: &[u8]) -> (r: Result<(), StreamError>)
        ensures
            r is Ok,
            final(self)@ == (MockView { written: old(self)@.written + bytes@, ..old(self)@ }),
    {
        proof {
            use_type_invariant(&*self);
            lemma_one_more(self.trace(), StreamStep::Wrote(bytes@, Ok(())));
        }
        let mut script = Script::blank();
        std::mem::swap(&mut script, &mut self.script);
        script.write(bytes);
        self.script = script;
        Ok(())
    }

    fn flush(&mut self) -> (r: Result<(), StreamError>)
        ensures
            r is Ok,
            final(self)@ == old(self)@,
    {
        proof {
            use_type_invariant(&*self);
            lemma_one_more(self.trace(), StreamStep::Flushed(Ok(())));
        }
        let mut script = Script::blank();
        std::mem::swap(&mut script, &mut self.script);
        script.flush();
        self.script = script;
        Ok(())
    }
}

/// Everything that is laid down to be read, put together.
pub open spec fn laid_down(pieces: Seq<Option<Seq<u8>>>) -> Seq<u8>
    decreases pieces.len(),
{
    if pieces.len() == 0 {
        Seq::empty()
    } else {
        (match pieces[0] {
            Some(piece) => piece,
            None => Seq::empty(),
        }) + laid_down(pieces.drop_first())
    }
}

/// However it is read, what was laid down comes out whole and in order.
pub proof fn law_reads_give_what_was_laid_down(s: MockView, max: nat)
    ensures
        laid_down(s.to_read) == (match s.next_read(max) {
            Ok(got) => got,
            Err(_) => Seq::empty(),
        }) + laid_down(s.after_read(max).to_read),
{
    if s.to_read.len() > 0 {
        let rest = s.to_read.drop_first();
        match s.to_read[0] {
            Some(piece) if piece.len() > max => {
                let left = seq![Some(piece.skip(max as int))] + rest;
                assert(left.drop_first() =~= rest);
                assert(piece =~= piece.take(max as int) + piece.skip(max as int));
            },
            _ => {},
        }
    }
    assert(laid_down(s.to_read) =~= (match s.next_read(max) {
        Ok(got) => got,
        Err(_) => Seq::empty(),
    }) + laid_down(s.after_read(max).to_read));
}

/// What is done with a stand-in and what it holds then: what is written stands behind what
/// was written before, what is laid down behind what is still to be read, forgetting takes
/// only what was written, and sending on its way takes nothing. A read takes the next
/// piece, or as much of it as was asked for, and leaves the rest to be read next; it gets
/// nothing in time where nothing is left, or where that was laid down.
pub proof fn law_what_a_stand_in_holds(
    s: MockView,
    bytes: Seq<u8>,
    piece: Option<Seq<u8>>,
    max: nat,
)
    ensures
        s.after(StreamStep::Wrote(bytes, Ok(()))) == (MockView {
            to_read: s.to_read,
            written: s.written + bytes,
        }),
        s.after(StreamStep::Fed(piece)) == (MockView {
            to_read: s.to_read.push(piece),
            written: s.written,
        }),
        s.after(StreamStep::Forgot) == (MockView { to_read: s.to_read, written: Seq::empty() }),
        s.after(StreamStep::Flushed(Ok(()))) == s,
        s.to_read.len() == 0 ==> s.next_read(max) is Err && s.after_read(max) == s,
        s.to_read.len() > 0 ==> s.after_read(max).written == s.written && match s.to_read[0] {
            None => s.next_read(max) is Err && s.after_read(max).to_read == s.to_read.skip(1),
            Some(next) => s.next_read(max) matches Ok(got) && (if next.len() <= max {
                got == next && s.after_read(max).to_read == s.to_read.skip(1)
            } else {
                &&& got == next.take(max as int)
                &&& s.after_read(max).to_read == s.to_read.update(0, Some(next.skip(max as int)))
            }),
        },
        s.next_read(max) matches Err(e) ==> e.timed_out,
{
    if s.to_read.len() > 0 {
        assert(s.to_read.skip(1) =~= s.to_read.drop_first());
        if let Some(next) = s.to_read[0] {
            if next.len() > max {
                assert(s.after_read(max).to_read =~= s.to_read.update(
                    0,
                    Some(next.skip(max as int)),
                ));
            }
        }
    }
}

} // verus!
