//! The AT dialogue that turns the multiplexer on.
//!
//! `AT` is sent until the module says `OK`, then `AT+CMUX=...`; once that is
//! answered by `OK` the module speaks in frames.
//!
//! A read that gets nothing in time counts as no answer in this round. So the
//! reads of the stream have to wait at least as long as [`AtConfig::timeout`].
use crate::serial::stream::{ByteStream, StreamStep};
#[allow(unused_imports)]
use crate::serial::stream;
#[allow(unused_imports)]
use crate::serial::timer;
use crate::serial::timer::{in_time, Clock, MachineClock};
#[allow(unused_imports)]
use crate::text;
use crate::text::{contains, push_decimal, push_text, text_lossy, trim};
use vstd::prelude::*;
use vstd::string::*;

verus! {

/// How the dialogue is led.
#[derive(Debug, Clone, Copy)]
pub struct AtConfig {
    /// How often `AT` is sent at most.
    pub attempts: u8,
    /// How long to wait for an answer, in nanoseconds.
    pub timeout: u64,
    /// The longest information field to agree on.
    pub n1: u16,
}

impl Default for AtConfig {
    fn default() -> (c: Self)
        ensures
            c == (AtConfig { attempts: 3, timeout: 1_000_000_000, n1: 127 }),
    {
        AtConfig { attempts: 3, timeout: 1_000_000_000, n1: 127 }
    }
}

/// Why the multiplexer could not be turned on.
#[derive(Debug)]
pub enum AtError {
    /// The module did not answer.
    NoResponse,
    /// The module refused, with these words.
    Rejected(String),
    /// The line failed.
    Io(String),
}

/// What an [`AtError`] holds.
#[verifier::ext_equal]
pub enum AtErrorView {
    NoResponse,
    Rejected(Seq<char>),
    Io(Seq<char>),
}

impl View for AtError {
    type V = AtErrorView;

    open spec fn view(&self) -> AtErrorView {
        match self {
            AtError::NoResponse => AtErrorView::NoResponse,
            AtError::Rejected(words) => AtErrorView::Rejected(words@),
            AtError::Io(why) => AtErrorView::Io(why@),
        }
    }
}

impl AtErrorView {
    /// The error in words.
    pub open spec fn text(self) -> Seq<char> {
        match self {
            AtErrorView::NoResponse => "模块无响应"@,
            AtErrorView::Rejected(words) => "模块拒绝: "@ + words,
            AtErrorView::Io(why) => "串口错误: "@ + why,
        }
    }
}

impl AtError {
    /// The error in words.
    pub fn to_string(&self) -> (s: String)
        ensures
            s@ == self@.text(),
    {
        let mut s = String::new();
        match self {
            AtError::NoResponse => {
                push_text(&mut s, "模块无响应");
            },
            AtError::Rejected(words) => {
                push_text(&mut s, "模块拒绝: ");
                push_text(&mut s, words.as_str());
            },
            AtError::Io(why) => {
                push_text(&mut s, "串口错误: ");
                push_text(&mut s, why.as_str());
            },
        }
        assert(s@ =~= self@.text());
        s
    }
}

/// How a round of waiting for an answer ended.
#[derive(Debug)]
pub enum AtReply {
    /// The module said `OK`.
    Accepted,
    /// The module said `ERROR`, in these words.
    Refused(String),
    /// The module did not answer.
    Silent,
    /// The line failed.
    Broken(String),
}

/// What an [`AtReply`] holds.
#[verifier::ext_equal]
pub enum AtReplyView {
    Accepted,
    Refused(Seq<char>),
    Silent,
    Broken(Seq<char>),
}

impl View for AtReply {
    type V = AtReplyView;

    open spec fn view(&self) -> AtReplyView {
        match self {
            AtReply::Accepted => AtReplyView::Accepted,
            AtReply::Refused(words) => AtReplyView::Refused(words@),
            AtReply::Silent => AtReplyView::Silent,
            AtReply::Broken(why) => AtReplyView::Broken(why@),
        }
    }
}

/// What the words that came so far say: `OK` wins over `ERROR`.
pub open spec fn verdict(words: Seq<char>) -> Option<AtReplyView> {
    if text::occurs(words, "OK"@) {
        Some(AtReplyView::Accepted)
    } else if text::occurs(words, "ERROR"@) {
        Some(AtReplyView::Refused(text::trimmed(words)))
    } else {
        None
    }
}

/// How many bytes a read asks for.
pub const READ_SIZE: usize = 256;

/// More readings of a clock than there are in any stretch of time.
pub const MOST_READINGS: u64 = 0xFFFF_FFFF_FFFF_FFFF;

/// What the rest of a round comes to, with the words heard so far and `left` readings
/// of the clock at most, given what was done with the stream and what the clock showed
/// from there on; and what was done and shown after the round. `None` where that is
/// not what a round does.
///
/// As long as the clock shows less than the timeout since the round began, something
/// is read. Reads that bring nothing are passed over, and words are put together until
/// they say something. There is no answer where the clock shows that the time is over,
/// or where a read gets nothing in time.
pub open spec fn listen(
    steps: Seq<StreamStep>,
    looks: Seq<u128>,
    begun: u128,
    timeout: u64,
    words: Seq<char>,
    left: nat,
) -> Option<(AtReplyView, Seq<StreamStep>, Seq<u128>)>
    decreases left,
{
    if left == 0 {
        Some((AtReplyView::Silent, steps, looks))
    } else if looks.len() == 0 {
        None
    } else if timer::passed(begun, looks[0]) >= timeout {
        Some((AtReplyView::Silent, steps, looks.drop_first()))
    } else if steps.len() == 0 {
        None
    } else {
        let rest = steps.drop_first();
        let later = looks.drop_first();
        match steps[0] {
            StreamStep::Read(max, outcome) => if max != READ_SIZE {
                None
            } else {
                match outcome {
                    Ok(bytes) => if bytes.len() == 0 {
                        listen(rest, later, begun, timeout, words, (left - 1) as nat)
                    } else {
                        let all = words + text::lossy(bytes);
                        match verdict(all) {
                            Some(reply) => Some((reply, rest, later)),
                            None => listen(
                                rest,
                                later,
                                begun,
                                timeout,
                                all,
                                (left - 1) as nat,
                            ),
                        }
                    },
                    Err(e) => if e.timed_out {
                        Some((AtReplyView::Silent, rest, later))
                    } else {
                        Some((AtReplyView::Broken(e.why), rest, later))
                    },
                }
            },
            _ => None,
        }
    }
}

/// What a whole round comes to: it begins with a look at the clock.
pub open spec fn round(steps: Seq<StreamStep>, looks: Seq<u128>, timeout: u64) -> Option<
    (AtReplyView, Seq<StreamStep>, Seq<u128>),
> {
    if looks.len() == 0 {
        None
    } else {
        listen(
            steps,
            looks.drop_first(),
            looks[0],
            timeout,
            Seq::empty(),
            MOST_READINGS as nat,
        )
    }
}

/// How saying something went, given what was done with the stream from there on,
/// and what was done after that; `None` where it was not said.
pub open spec fn say(steps: Seq<StreamStep>, bytes: Seq<u8>) -> Option<
    (Result<(), Seq<char>>, Seq<StreamStep>),
> {
    if steps.len() == 0 {
        None
    } else {
        match steps[0] {
            StreamStep::Wrote(written, outcome) => if written != bytes {
                None
            } else {
                match outcome {
                    Err(e) => Some((Err(e.why), steps.drop_first())),
                    Ok(_) => if steps.len() < 2 {
                        None
                    } else {
                        match steps[1] {
                            StreamStep::Flushed(Ok(_)) => Some((Ok(()), steps.skip(2))),
                            StreamStep::Flushed(Err(e)) => Some((Err(e.why), steps.skip(2))),
                            _ => None,
                        }
                    },
                }
            },
            _ => None,
        }
    }
}

/// The question whether anyone is there.
pub open spec fn probe() -> Seq<u8> {
    seq![0x41, 0x54, 0x0D]
}

/// The command that turns the multiplexer on: Basic mode, UIH frames, port speed
/// 5, the longest information field, 100 ms, 3 attempts, 300 ms, 10 s, window 2.
pub open spec fn command(n1: u16) -> Seq<char> {
    "AT+CMUX=0,0,5,"@ + text::decimal(n1 as nat) + ",10,3,30,10,2\r"@
}

/// An outcome, where nothing was done and nothing shown after it.
pub open spec fn at_the_end(
    steps: Seq<StreamStep>,
    looks: Seq<u128>,
    outcome: Result<(), AtErrorView>,
) -> Option<Result<(), AtErrorView>> {
    if steps.len() == 0 && looks.len() == 0 {
        Some(outcome)
    } else {
        None
    }
}

/// What the answer to the command means.
pub open spec fn granted(reply: AtReplyView) -> Result<(), AtErrorView> {
    match reply {
        AtReplyView::Accepted => Ok(()),
        AtReplyView::Refused(words) => Err(AtErrorView::Rejected(words)),
        AtReplyView::Silent => Err(AtErrorView::NoResponse),
        AtReplyView::Broken(why) => Err(AtErrorView::Io(why)),
    }
}

/// What it comes to when something is said and an answer awaited: a line that fails at
/// either is broken.
pub open spec fn asked(
    bytes: Seq<u8>,
    steps: Seq<StreamStep>,
    looks: Seq<u128>,
    timeout: u64,
) -> Option<(AtReplyView, Seq<StreamStep>, Seq<u128>)> {
    match say(steps, bytes) {
        None => None,
        Some((Err(why), rest)) => Some((AtReplyView::Broken(why), rest, looks)),
        Some((Ok(_), rest)) => round(rest, looks, timeout),
    }
}

/// What the second half of the dialogue comes to: the command is said, and the
/// answer decides.
pub open spec fn commanded(
    n1: u16,
    timeout: u64,
    steps: Seq<StreamStep>,
    looks: Seq<u128>,
) -> Option<Result<(), AtErrorView>> {
    match asked(vstd::utf8::encode_utf8(command(n1)), steps, looks, timeout) {
        None => None,
        Some((reply, after, later)) => at_the_end(after, later, granted(reply)),
    }
}

/// What the dialogue comes to with `attempts` questions left, given everything that
/// was done with the stream and that the clock showed from there on; `None` where that
/// is not what the dialogue does. The question is asked again after no answer and
/// after `ERROR`.
pub open spec fn dialogue(
    attempts: nat,
    n1: u16,
    timeout: u64,
    steps: Seq<StreamStep>,
    looks: Seq<u128>,
) -> Option<Result<(), AtErrorView>>
    decreases attempts,
{
    if attempts == 0 {
        at_the_end(steps, looks, Err(AtErrorView::NoResponse))
    } else {
        match asked(probe(), steps, looks, timeout) {
            None => None,
            Some((reply, after, later)) => match reply {
                AtReplyView::Accepted => commanded(n1, timeout, after, later),
                AtReplyView::Broken(why) => at_the_end(after, later, Err(AtErrorView::Io(why))),
                _ => dialogue((attempts - 1) as nat, n1, timeout, after, later),
            },
        }
    }
}

/// The words of an outcome.
pub open spec fn outcome_view(r: Result<(), AtError>) -> Result<(), AtErrorView> {
    match r {
        Ok(_) => Ok(()),
        Err(e) => Err(e@),
    }
}

/// Takes words in that came: puts them behind the others and says what they all
/// say.
pub fn hear(words: &mut String, bytes: &[u8]) -> (r: Option<AtReply>)
    ensures
        final(words)@ == old(words)@ + text::lossy(bytes@),
        match r {
            Some(reply) => verdict(final(words)@) == Some(reply@),
            None => verdict(final(words)@) is None,
        },
{
    push_text(words, text_lossy(bytes).as_str());
    if contains(words.as_str(), "OK") {
        return Some(AtReply::Accepted);
    }
    if contains(words.as_str(), "ERROR") {
        return Some(AtReply::Refused(trim(words.as_str())));
    }
    None
}

/// How saying something went.
spec fn said_view(r: Result<(), String>) -> Result<(), Seq<char>> {
    match r {
        Ok(_) => Ok(()),
        Err(why) => Err(why@),
    }
}

/// Says something and sees it on its way.
fn tell<S: ByteStream>(stream: &mut S, bytes: &[u8]) -> (r: Result<(), String>)
    ensures
        old(stream).trace().is_prefix_of(final(stream).trace()),
        forall|more: Seq<StreamStep>|
            #![trigger final(stream).trace() + more]
            say(
                (final(stream).trace() + more).skip(old(stream).trace().len() as int),
                bytes@,
            ) == Some((said_view(r), more)),
{
    let ghost start = stream.trace();
    let ghost n = start.len() as int;
    match stream.write_all(bytes) {
        Err(e) => {
            proof {
                assert forall|more: Seq<StreamStep>|
                    #![trigger stream.trace() + more]
                    say((stream.trace() + more).skip(n), bytes@) == Some(
                        (Err::<(), Seq<char>>(e.why@), more),
                    ) by {
                    let steps = (stream.trace() + more).skip(n);
                    assert(steps[0] == StreamStep::Wrote(bytes@, Err(e@)));
                    assert(steps.drop_first() =~= more);
                }
            }
            Err(e.why)
        },
        Ok(_) => {
            let flushed = stream.flush();
            proof {
                assert forall|more: Seq<StreamStep>|
                    #![trigger stream.trace() + more]
                    say((stream.trace() + more).skip(n), bytes@) == Some(
                        (
                            match flushed {
                                Ok(_) => Ok(()),
                                Err(e) => Err(e.why@),
                            },
                            more,
                        ),
                    ) by {
                    let steps = (stream.trace() + more).skip(n);
                    assert(steps[0] == StreamStep::Wrote(bytes@, Ok(())));
                    assert(steps[1] == StreamStep::Flushed(stream::write_view(flushed)));
                    assert(steps.skip(2) =~= more);
                }
            }
            match flushed {
                Ok(_) => Ok(()),
                Err(e) => Err(e.why),
            }
        },
    }
}

/// Waits for an answer: until words came that say something, a read got nothing
/// in time, the line failed, or the time is over.
fn read_response<S: ByteStream, C: Clock>(stream: &mut S, clock: &mut C, timeout: u64) -> (r:
    AtReply)
    ensures
        old(stream).trace().is_prefix_of(final(stream).trace()),
        old(clock).readings().is_prefix_of(final(clock).readings()),
        forall|more: Seq<StreamStep>, later: Seq<u128>|
            #![trigger final(stream).trace() + more, final(clock).readings() + later]
            round(
                (final(stream).trace() + more).skip(old(stream).trace().len() as int),
                (final(clock).readings() + later).skip(old(clock).readings().len() as int),
                timeout,
            ) == Some((r@, more, later)),
{
    let ghost n = stream.trace().len() as int;
    let ghost k = clock.readings().len() as int;
    let begun: u128 = clock.look();
    let mut words = String::new();
    let mut left: u64 = MOST_READINGS;
    proof {
        assert forall|more: Seq<StreamStep>, later: Seq<u128>|
            #![trigger stream.trace() + more, clock.readings() + later]
            round(
                (stream.trace() + more).skip(n),
                (clock.readings() + later).skip(k),
                timeout,
            ) == listen(more, later, begun, timeout, words@, left as nat) by {
            assert((stream.trace() + more).skip(n) =~= more);
            let shown = (clock.readings() + later).skip(k);
            assert(shown[0] == begun);
            assert(shown.drop_first() =~= later);
            assert(words@ =~= Seq::empty());
        }
    }
    while left > 0
        invariant
            n == old(stream).trace().len(),
            k == old(clock).readings().len(),
            old(stream).trace().is_prefix_of(stream.trace()),
            old(clock).readings().is_prefix_of(clock.readings()),
            forall|more: Seq<StreamStep>, later: Seq<u128>|
                #![trigger stream.trace() + more, clock.readings() + later]
                round(
                    (stream.trace() + more).skip(n),
                    (clock.readings() + later).skip(k),
                    timeout,
                ) == listen(more, later, begun, timeout, words@, left as nat),
        decreases left,
    {
        let ghost done = stream.trace();
        let ghost shown = clock.readings();
        let now: u128 = clock.look();
        proof {
            assert forall|more: Seq<StreamStep>, later: Seq<u128>|
                #![trigger done + more, clock.readings() + later]
                round((done + more).skip(n), (clock.readings() + later).skip(k), timeout)
                    == listen(more, seq![now] + later, begun, timeout, words@, left as nat)
                    && (seq![now] + later).drop_first() == later by {
                assert(clock.readings() + later =~= shown + (seq![now] + later));
                assert((seq![now] + later).drop_first() =~= later);
            }
        }
        if !in_time(begun, now, timeout) {
            return AtReply::Silent;
        }
        let got = stream.read(READ_SIZE);
        let ghost step = StreamStep::Read(READ_SIZE as nat, stream::read_view(got));
        proof {
            assert forall|more: Seq<StreamStep>, later: Seq<u128>|
                #![trigger stream.trace() + more, clock.readings() + later]
                round((stream.trace() + more).skip(n), (clock.readings() + later).skip(k), timeout)
                    == listen(
                    seq![step] + more,
                    seq![now] + later,
                    begun,
                    timeout,
                    words@,
                    left as nat,
                ) && (seq![step] + more).drop_first() == more && (seq![now] + later).drop_first()
                    == later by {
                assert(stream.trace() + more =~= done + (seq![step] + more));
                assert((seq![step] + more).drop_first() =~= more);
            }
        }
        left = left - 1;
        match got {
            Ok(bytes) => {
                if bytes.len() > 0 {
                    if let Some(reply) = hear(&mut words, bytes.as_slice()) {
                        return reply;
                    }
                }
            },
            Err(e) => {
                if e.timed_out {
                    return AtReply::Silent;
                }
                return AtReply::Broken(e.why);
            },
        }
    }
    AtReply::Silent
}

/// The command that turns the multiplexer on.
fn cmux_command(n1: u16) -> (s: String)
    ensures
        s@ == command(n1),
{
    let mut s = String::new();
    push_text(&mut s, "AT+CMUX=0,0,5,");
    push_decimal(&mut s, n1 as u64);
    push_text(&mut s, ",10,3,30,10,2\r");
    assert(s@ =~= command(n1));
    s
}

/// Says something and waits for an answer.
fn ask<S: ByteStream, C: Clock>(stream: &mut S, clock: &mut C, bytes: &[u8], timeout: u64) -> (r:
    AtReply)
    ensures
        old(stream).trace().is_prefix_of(final(stream).trace()),
        old(clock).readings().is_prefix_of(final(clock).readings()),
        forall|more: Seq<StreamStep>, later: Seq<u128>|
            #![trigger final(stream).trace() + more, final(clock).readings() + later]
            asked(
                bytes@,
                (final(stream).trace() + more).skip(old(stream).trace().len() as int),
                (final(clock).readings() + later).skip(old(clock).readings().len() as int),
                timeout,
            ) == Some((r@, more, later)),
{
    let ghost n = stream.trace().len() as int;
    let ghost k = clock.readings().len() as int;
    let ghost shown = clock.readings();
    let said = tell(stream, bytes);
    let ghost told = stream.trace();
    if let Err(why) = said {
        proof {
            assert forall|later: Seq<u128>| #[trigger] (shown + later).skip(k) == later by {
                assert((shown + later).skip(k) =~= later);
            }
        }
        return AtReply::Broken(why);
    }
    let reply = read_response(stream, clock, timeout);
    proof {
        let heard = stream.trace();
        assert forall|more: Seq<StreamStep>|
            #![trigger heard + more]
            say((heard + more).skip(n), bytes@) == Some(
                (Ok::<(), Seq<char>>(()), (heard + more).skip(told.len() as int)),
            ) by {
            assert(heard + more =~= told + (heard + more).skip(told.len() as int));
        }
    }
    reply
}

/// Leads the second half of the dialogue.
fn command_mux<S: ByteStream, C: Clock>(stream: &mut S, clock: &mut C, cfg: &AtConfig) -> (r:
    Result<(), AtError>)
    ensures
        old(stream).trace().is_prefix_of(final(stream).trace()),
        old(clock).readings().is_prefix_of(final(clock).readings()),
        commanded(
            cfg.n1,
            cfg.timeout,
            final(stream).trace().skip(old(stream).trace().len() as int),
            final(clock).readings().skip(old(clock).readings().len() as int),
        ) == Some(outcome_view(r)),
{
    let cmd = cmux_command(cfg.n1);
    let reply = ask(stream, clock, cmd.as_str().as_bytes(), cfg.timeout);
    proof {
        assert(stream.trace() + Seq::<StreamStep>::empty() =~= stream.trace());
        assert(clock.readings() + Seq::<u128>::empty() =~= clock.readings());
    }
    match reply {
        AtReply::Accepted => Ok(()),
        AtReply::Refused(words) => Err(AtError::Rejected(words)),
        AtReply::Silent => Err(AtError::NoResponse),
        AtReply::Broken(why) => Err(AtError::Io(why)),
    }
}

/// A question that got no answer, or `ERROR`, leaves the rest of the dialogue.
proof fn lemma_put_off(
    attempts: nat,
    n1: u16,
    timeout: u64,
    steps: Seq<StreamStep>,
    looks: Seq<u128>,
)
    requires
        attempts > 0,
        asked(probe(), steps, looks, timeout) matches Some((reply, _, _)) && (reply is Silent
            || reply is Refused),
    ensures
        asked(probe(), steps, looks, timeout) matches Some((_, after, later)) && dialogue(
            attempts,
            n1,
            timeout,
            steps,
            looks,
        ) == dialogue((attempts - 1) as nat, n1, timeout, after, later),
{
}

/// Leads the whole dialogue by a given clock. Once it went well the module speaks in
/// frames.
#[verifier::spinoff_prover]
#[verifier::rlimit(40)]
pub fn enter_mux_with<S: ByteStream, C: Clock>(stream: &mut S, clock: &mut C, cfg: &AtConfig) -> (r:
    Result<(), AtError>)
    ensures
        old(stream).trace().is_prefix_of(final(stream).trace()),
        old(clock).readings().is_prefix_of(final(clock).readings()),
        dialogue(
            cfg.attempts as nat,
            cfg.n1,
            cfg.timeout,
            final(stream).trace().skip(old(stream).trace().len() as int),
            final(clock).readings().skip(old(clock).readings().len() as int),
        ) == Some(outcome_view(r)),
{
    let ghost n = stream.trace().len() as int;
    let ghost k = clock.readings().len() as int;
    let mut attempts: u8 = cfg.attempts;
    let mut question: Vec<u8> = Vec::new();
    question.push(0x41);
    question.push(0x54);
    question.push(0x0D);
    assert(question@ =~= probe());
    proof {
        assert forall|more: Seq<StreamStep>, later: Seq<u128>|
            #![trigger stream.trace() + more, clock.readings() + later]
            dialogue(
                cfg.attempts as nat,
                cfg.n1,
                cfg.timeout,
                (stream.trace() + more).skip(n),
                (clock.readings() + later).skip(k),
            ) == dialogue(attempts as nat, cfg.n1, cfg.timeout, more, later) by {
            assert((stream.trace() + more).skip(n) =~= more);
            assert((clock.readings() + later).skip(k) =~= later);
        }
    }
    while attempts > 0
        invariant
            n == old(stream).trace().len(),
            k == old(clock).readings().len(),
            old(stream).trace().is_prefix_of(stream.trace()),
            old(clock).readings().is_prefix_of(clock.readings()),
            question@ == probe(),
            forall|more: Seq<StreamStep>, later: Seq<u128>|
                #![trigger stream.trace() + more, clock.readings() + later]
                dialogue(
                    cfg.attempts as nat,
                    cfg.n1,
                    cfg.timeout,
                    (stream.trace() + more).skip(n),
                    (clock.readings() + later).skip(k),
                ) == dialogue(attempts as nat, cfg.n1, cfg.timeout, more, later),
        decreases attempts,
    {
        let ghost before = stream.trace();
        let ghost shown = clock.readings();
        let reply = ask(stream, clock, question.as_slice(), cfg.timeout);
        let ghost heard = stream.trace();
        let ghost seen = clock.readings();
        proof {
            assert forall|more: Seq<StreamStep>, later: Seq<u128>|
                #![trigger heard + more, seen + later]
                dialogue(
                    cfg.attempts as nat,
                    cfg.n1,
                    cfg.timeout,
                    (heard + more).skip(n),
                    (seen + later).skip(k),
                ) == dialogue(
                    attempts as nat,
                    cfg.n1,
                    cfg.timeout,
                    (heard + more).skip(before.len() as int),
                    (seen + later).skip(shown.len() as int),
                ) by {
                assert(heard + more =~= before + (heard + more).skip(before.len() as int));
                assert(seen + later =~= shown + (seen + later).skip(shown.len() as int));
            }
            assert(heard + Seq::<StreamStep>::empty() =~= heard);
            assert(seen + Seq::<u128>::empty() =~= seen);
        }
        match reply {
            AtReply::Accepted => {
                let r = command_mux(stream, clock, cfg);
                proof {
                    let on = stream.trace().skip(heard.len() as int);
                    let ahead = clock.readings().skip(seen.len() as int);
                    assert(heard + on =~= stream.trace());
                    assert(seen + ahead =~= clock.readings());
                }
                return r;
            },
            AtReply::Broken(why) => {
                return Err(AtError::Io(why));
            },
            _ => {
                let ghost asking = attempts as nat;
                attempts = attempts - 1;
                proof {
                    assert forall|more: Seq<StreamStep>, later: Seq<u128>|
                        #![trigger heard + more, seen + later]
                        dialogue(
                            cfg.attempts as nat,
                            cfg.n1,
                            cfg.timeout,
                            (heard + more).skip(n),
                            (seen + later).skip(k),
                        ) == dialogue(attempts as nat, cfg.n1, cfg.timeout, more, later) by {
                        let steps = (heard + more).skip(before.len() as int);
                        let looks = (seen + later).skip(shown.len() as int);
                        assert(asked(probe(), steps, looks, cfg.timeout) == Some(
                            (reply@, more, later),
                        ));
                        lemma_put_off(asking, cfg.n1, cfg.timeout, steps, looks);
                    }
                }
            },
        }
    }
    assert(stream.trace() + Seq::<StreamStep>::empty() =~= stream.trace());
    assert(clock.readings() + Seq::<u128>::empty() =~= clock.readings());
    Err(AtError::NoResponse)
}

/// Leads the whole dialogue by the machine's clock. What that shows is not known
/// beforehand: the dialogue is the one that belongs to what it showed.
pub fn enter_mux<S: ByteStream>(stream: &mut S, cfg: &AtConfig) -> (r: Result<(), AtError>)
    ensures
        old(stream).trace().is_prefix_of(final(stream).trace()),
        exists|looks: Seq<u128>| #[trigger]
            dialogue(
                cfg.attempts as nat,
                cfg.n1,
                cfg.timeout,
                final(stream).trace().skip(old(stream).trace().len() as int),
                looks,
            ) == Some(outcome_view(r)),
{
    let mut clock = MachineClock::start();
    enter_mux_with(stream, &mut clock, cfg)
}

} // verus!
