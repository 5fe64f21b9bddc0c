//! What holds of the AT dialogue as a whole, and what it comes to with a stand-in.
#[allow(unused_imports)]
use crate::serial::at;
#[allow(unused_imports)]
use crate::serial::at::{AtErrorView, AtReplyView, MOST_READINGS, READ_SIZE};
#[allow(unused_imports)]
use crate::serial::stream;
#[allow(unused_imports)]
use crate::serial::stream::{MockView, StreamStep};
#[allow(unused_imports)]
use crate::serial::timer;
#[allow(unused_imports)]
use crate::text;
use vstd::prelude::*;

verus! {

/// Why the rest of a round ended, and what it did: every reading in time is followed by
/// a read, and silence has a cause.
proof fn lemma_listen_has_a_cause(
    steps: Seq<StreamStep>,
    looks: Seq<u128>,
    begun: u128,
    timeout: u64,
    words: Seq<char>,
    left: nat,
)
    ensures
        at::listen(steps, looks, begun, timeout, words, left) matches Some((reply, rest, later))
            ==> {
            let reads = steps.len() - rest.len();
            let shown = looks.len() - later.len();
            &&& 0 <= reads <= steps.len()
            &&& rest == steps.skip(reads)
            &&& later == looks.skip(shown)
            &&& shown == reads || shown == reads + 1
            &&& shown <= left
            &&& forall|i: int| 0 <= i < reads ==> (#[trigger] steps[i] is Read) && steps[i]->Read_0
                == READ_SIZE
            &&& forall|i: int|
                0 <= i < reads ==> timer::passed(begun, #[trigger] looks[i]) < timeout
            &&& shown == reads + 1 ==> timer::passed(begun, looks[reads]) >= timeout
            &&& reply is Silent ==> {
                ||| shown == reads + 1
                ||| shown == left
                ||| reads > 0 && steps[reads - 1]->Read_1 is Err && (steps[reads
                    - 1]->Read_1)->Err_0.timed_out
            }
            &&& !(reply is Silent) ==> shown == reads && reads > 0
        },
    decreases left,
{
    if let Some((reply, rest, later)) = at::listen(steps, looks, begun, timeout, words, left) {
        if left == 0 {
            assert(steps.skip(0) =~= steps);
            assert(looks.skip(0) =~= looks);
        } else if timer::passed(begun, looks[0]) >= timeout {
            assert(steps.skip(0) =~= steps);
            assert(looks.skip(1) =~= looks.drop_first());
        } else {
            let on = steps.drop_first();
            let ahead = looks.drop_first();
            assert(steps.skip(1) =~= on);
            assert(looks.skip(1) =~= ahead);
            if let StreamStep::Read(_, Ok(bytes)) = steps[0] {
                let all = if bytes.len() == 0 {
                    words
                } else {
                    words + text::lossy(bytes)
                };
                if bytes.len() == 0 || at::verdict(all) is None {
                    lemma_listen_has_a_cause(on, ahead, begun, timeout, all, (left - 1) as nat);
                    let reads = steps.len() - rest.len();
                    let shown = looks.len() - later.len();
                    assert(on.skip(reads - 1) =~= steps.skip(reads));
                    assert(ahead.skip(shown - 1) =~= looks.skip(shown));
                    assert forall|i: int| 0 <= i < reads implies (#[trigger] steps[i] is Read)
                        && steps[i]->Read_0 == READ_SIZE by {
                        if i > 0 {
                            assert(on[i - 1] == steps[i]);
                        }
                    }
                    assert forall|i: int| 0 <= i < reads implies timer::passed(
                        begun,
                        #[trigger] looks[i],
                    ) < timeout by {
                        if i > 0 {
                            assert(ahead[i - 1] == looks[i]);
                        }
                    }
                    if reads > 1 {
                        assert(on[reads - 2] == steps[reads - 1]);
                    }
                }
            }
        }
    }
}

/// A round looks at the clock when it begins. From then on each look that shows less
/// than the timeout is followed by a read of a fixed size, and a look that shows more
/// ends the round. A round without an answer has a cause: the time was over, or a read
/// got nothing in time, or the clock was looked at more often than there is time for.
pub proof fn law_silence_has_a_cause(steps: Seq<StreamStep>, looks: Seq<u128>, timeout: u64)
    ensures
        at::round(steps, looks, timeout) matches Some((reply, rest, later)) ==> {
            let reads = steps.len() - rest.len();
            let shown = looks.len() - later.len() - 1;
            &&& 0 <= reads <= steps.len()
            &&& rest == steps.skip(reads)
            &&& later == looks.skip(shown + 1)
            &&& shown == reads || shown == reads + 1
            &&& forall|i: int| 0 <= i < reads ==> (#[trigger] steps[i] is Read) && steps[i]->Read_0
                == READ_SIZE
            &&& forall|i: int|
                1 <= i <= reads ==> timer::passed(looks[0], #[trigger] looks[i]) < timeout
            &&& shown == reads + 1 ==> timer::passed(looks[0], looks[reads + 1]) >= timeout
            &&& reply is Silent ==> {
                ||| shown == reads + 1
                ||| shown == MOST_READINGS
                ||| reads > 0 && steps[reads - 1]->Read_1 is Err && (steps[reads
                    - 1]->Read_1)->Err_0.timed_out
            }
            &&& !(reply is Silent) ==> shown == reads && reads > 0
        },
{
    if looks.len() > 0 {
        let ahead = looks.drop_first();
        lemma_listen_has_a_cause(
            steps,
            ahead,
            looks[0],
            timeout,
            Seq::empty(),
            MOST_READINGS as nat,
        );
        if let Some((reply, rest, later)) = at::round(steps, looks, timeout) {
            let reads = steps.len() - rest.len();
            let shown = ahead.len() - later.len();
            assert(ahead.skip(shown) =~= looks.skip(shown + 1));
            assert forall|i: int| 1 <= i <= reads implies timer::passed(
                looks[0],
                #[trigger] looks[i],
            ) < timeout by {
                assert(ahead[i - 1] == looks[i]);
            }
            if shown == reads + 1 {
                assert(ahead[reads] == looks[reads + 1]);
            }
        }
    }
}

/// The words of pieces of an answer, put together.
pub open spec fn words_of(chunks: Seq<Seq<u8>>) -> Seq<char>
    decreases chunks.len(),
{
    if chunks.len() == 0 {
        Seq::empty()
    } else {
        words_of(chunks.drop_last()) + text::lossy(chunks.last())
    }
}

/// The reads that bring some pieces, one each.
pub open spec fn reads_of(chunks: Seq<Seq<u8>>) -> Seq<StreamStep> {
    chunks.map_values(|c: Seq<u8>| StreamStep::Read(READ_SIZE as nat, Ok(c)))
}

/// The first pieces of an answer, which say nothing yet, are only put together.
proof fn lemma_chunks(
    chunks: Seq<Seq<u8>>,
    more: Seq<StreamStep>,
    begun: u128,
    looks: Seq<u128>,
    timeout: u64,
    n: nat,
    left: nat,
)
    requires
        n <= chunks.len(),
        n <= looks.len(),
        n <= left,
        forall|i: int| 0 <= i < n ==> (#[trigger] chunks[i]).len() > 0,
        forall|i: int| 0 <= i < n ==> timer::passed(begun, #[trigger] looks[i]) < timeout,
        forall|i: int| 0 < i <= n ==> at::verdict(words_of(#[trigger] chunks.take(i))) is None,
    ensures
        at::listen(reads_of(chunks) + more, looks, begun, timeout, Seq::empty(), left)
            == at::listen(
            reads_of(chunks.skip(n as int)) + more,
            looks.skip(n as int),
            begun,
            timeout,
            words_of(chunks.take(n as int)),
            (left - n) as nat,
        ),
    decreases n,
{
    if n == 0 {
        assert(chunks.skip(0) =~= chunks);
        assert(looks.skip(0) =~= looks);
        assert(chunks.take(0) =~= Seq::empty());
    } else {
        let m = (n - 1) as nat;
        lemma_chunks(chunks, more, begun, looks, timeout, m, left);
        let rest = chunks.skip(m as int);
        let steps = reads_of(rest) + more;
        let ahead = looks.skip(m as int);
        assert(steps[0] == StreamStep::Read(READ_SIZE as nat, Ok(chunks[m as int])));
        assert(ahead[0] == looks[m as int]);
        assert(steps.drop_first() =~= reads_of(chunks.skip(n as int)) + more);
        assert(ahead.drop_first() =~= looks.skip(n as int));
        assert(chunks.take(n as int).drop_last() =~= chunks.take(m as int));
        assert(at::verdict(words_of(chunks.take(n as int))) is None);
    }
}

/// An answer that comes in pieces, in time, is read until the pieces together say
/// something, and no further: `OK` anywhere in them accepts, though it be split over
/// two of them or stand beside `ERROR`. Where they never say anything, the read that
/// gets nothing in time ends the round.
pub proof fn law_pieces_are_put_together(
    chunks: Seq<Seq<u8>>,
    more: Seq<StreamStep>,
    looks: Seq<u128>,
    timeout: u64,
)
    requires
        0 < chunks.len() < MOST_READINGS,
        looks.len() > chunks.len() + 1,
        forall|i: int| 0 <= i < chunks.len() ==> (#[trigger] chunks[i]).len() > 0,
        forall|i: int|
            1 <= i <= chunks.len() + 1 ==> timer::passed(looks[0], #[trigger] looks[i]) < timeout,
        forall|i: int|
            0 < i < chunks.len() ==> at::verdict(words_of(#[trigger] chunks.take(i))) is None,
    ensures
        match at::verdict(words_of(chunks)) {
            Some(reply) => at::round(reads_of(chunks) + more, looks, timeout) == Some(
                (reply, more, looks.skip(chunks.len() as int + 1)),
            ),
            None => more.len() > 0 && more[0] == StreamStep::Read(
                READ_SIZE as nat,
                Err(stream::silence()),
            ) ==> at::round(reads_of(chunks) + more, looks, timeout) == Some(
                (
                    AtReplyView::Silent,
                    more.drop_first(),
                    looks.skip(chunks.len() as int + 2),
                ),
            ),
        },
{
    let n = chunks.len();
    let m = (n - 1) as nat;
    let begun = looks[0];
    let ahead = looks.drop_first();
    let left = MOST_READINGS as nat;
    assert forall|i: int| 0 <= i < n + 1 implies timer::passed(begun, #[trigger] ahead[i])
        < timeout by {
        assert(ahead[i] == looks[i + 1]);
    }
    lemma_chunks(chunks, more, begun, ahead, timeout, m, left);
    let rest = chunks.skip(m as int);
    let steps = reads_of(rest) + more;
    let on = ahead.skip(m as int);
    assert(rest.len() == 1);
    assert(steps[0] == StreamStep::Read(READ_SIZE as nat, Ok(chunks[m as int])));
    assert(on[0] == ahead[m as int]);
    assert(steps.drop_first() =~= more);
    assert(on.drop_first() =~= looks.skip(n as int + 1));
    assert(chunks.drop_last() =~= chunks.take(m as int));
    if at::verdict(words_of(chunks)) is None && more.len() > 0 && more[0] == StreamStep::Read(
        READ_SIZE as nat,
        Err(stream::silence()),
    ) {
        let last = looks.skip(n as int + 1);
        assert(last[0] == ahead[n as int]);
        assert(last.drop_first() =~= looks.skip(n as int + 2));
        assert(at::listen(more, last, begun, timeout, words_of(chunks), (left - n) as nat) == Some(
            (AtReplyView::Silent, more.drop_first(), last.drop_first()),
        ));
    }
}

/// Everything that was handed over to be written, put together.
pub open spec fn handed_over(steps: Seq<StreamStep>) -> Seq<u8>
    decreases steps.len(),
{
    if steps.len() == 0 {
        Seq::empty()
    } else {
        (match steps[0] {
            StreamStep::Wrote(bytes, _) => bytes,
            _ => Seq::empty(),
        }) + handed_over(steps.drop_first())
    }
}

/// Bytes, so many times over.
pub open spec fn repeated(bytes: Seq<u8>, n: nat) -> Seq<u8>
    decreases n,
{
    if n == 0 {
        Seq::empty()
    } else {
        bytes + repeated(bytes, (n - 1) as nat)
    }
}

/// The answers that a dialogue got: to each question, and to the command where that
/// was said.
pub open spec fn replies(
    attempts: nat,
    n1: u16,
    timeout: u64,
    steps: Seq<StreamStep>,
    looks: Seq<u128>,
) -> Seq<AtReplyView>
    decreases attempts,
{
    if attempts == 0 {
        Seq::empty()
    } else {
        match at::asked(at::probe(), steps, looks, timeout) {
            None => Seq::empty(),
            Some((reply, after, later)) => seq![reply] + (match reply {
                AtReplyView::Accepted => match at::asked(
                    vstd::utf8::encode_utf8(at::command(n1)),
                    after,
                    later,
                    timeout,
                ) {
                    None => Seq::empty(),
                    Some((second, _, _)) => seq![second],
                },
                AtReplyView::Broken(_) => Seq::empty(),
                _ => replies((attempts - 1) as nat, n1, timeout, after, later),
            }),
        }
    }
}

/// Where the first `OK` is among some answers.
pub open spec fn first_accepted(replies: Seq<AtReplyView>) -> Option<nat>
    decreases replies.len(),
{
    if replies.len() == 0 {
        None
    } else if replies[0] is Accepted {
        Some(0)
    } else {
        match first_accepted(replies.drop_first()) {
            Some(j) => Some(j + 1),
            None => None,
        }
    }
}

/// Whether an answer is none, or `ERROR`.
pub open spec fn put_off(reply: AtReplyView) -> bool {
    reply is Silent || reply is Refused
}

/// A round hands nothing over to be written.
proof fn lemma_listen_writes_nothing(
    steps: Seq<StreamStep>,
    looks: Seq<u128>,
    begun: u128,
    timeout: u64,
    words: Seq<char>,
    left: nat,
)
    ensures
        at::listen(steps, looks, begun, timeout, words, left) matches Some((_, rest, _))
            ==> handed_over(steps) == handed_over(rest),
    decreases left,
{
    if let Some((_, rest, _)) = at::listen(steps, looks, begun, timeout, words, left) {
        if left > 0 && timer::passed(begun, looks[0]) < timeout {
            let on = steps.drop_first();
            assert(handed_over(steps) =~= handed_over(on));
            if let StreamStep::Read(_, Ok(bytes)) = steps[0] {
                let less = (left - 1) as nat;
                let all = words + text::lossy(bytes);
                lemma_listen_writes_nothing(on, looks.drop_first(), begun, timeout, words, less);
                lemma_listen_writes_nothing(on, looks.drop_first(), begun, timeout, all, less);
            }
        }
    }
}

/// What is said is handed over, and nothing else.
proof fn lemma_asked_writes(
    bytes: Seq<u8>,
    steps: Seq<StreamStep>,
    looks: Seq<u128>,
    timeout: u64,
)
    ensures
        at::asked(bytes, steps, looks, timeout) matches Some((_, rest, _)) ==> handed_over(steps)
            == bytes + handed_over(rest),
{
    if let Some((said, on)) = at::say(steps, bytes) {
        let after = steps.drop_first();
        assert(handed_over(steps) == bytes + handed_over(after));
        if steps[0]->Wrote_1 is Ok {
            assert(after.drop_first() =~= steps.skip(2));
            assert(handed_over(after) =~= handed_over(on));
        }
        if looks.len() > 0 {
            lemma_listen_writes_nothing(
                on,
                looks.drop_first(),
                looks[0],
                timeout,
                Seq::empty(),
                MOST_READINGS as nat,
            );
        }
    }
}

/// The answers decide, and nothing else. The question goes out once for each answer to
/// it. The first `OK` to it lets the command follow, and the answer to that is the
/// outcome: `OK` is success, `ERROR` a refusal in its words, silence no response.
/// Without an `OK` the question goes out as often as allowed and there is no response,
/// unless the line breaks before. `ERROR` to a question counts as no answer.
pub proof fn law_answers_decide(
    attempts: nat,
    n1: u16,
    timeout: u64,
    steps: Seq<StreamStep>,
    looks: Seq<u128>,
)
    ensures
        at::dialogue(attempts, n1, timeout, steps, looks) matches Some(outcome) ==> {
            let got = replies(attempts, n1, timeout, steps, looks);
            match first_accepted(got) {
                Some(j) => {
                    &&& j < attempts
                    &&& got.len() == j + 2
                    &&& forall|i: int| 0 <= i < j ==> put_off(#[trigger] got[i])
                    &&& handed_over(steps) == repeated(at::probe(), j + 1)
                        + vstd::utf8::encode_utf8(at::command(n1))
                    &&& outcome == at::granted(got[j as int + 1])
                },
                None => {
                    &&& got.len() <= attempts
                    &&& handed_over(steps) == repeated(at::probe(), got.len())
                    &&& forall|i: int| 0 <= i < got.len() - 1 ==> put_off(#[trigger] got[i])
                    &&& {
                        ||| got.len() == attempts && outcome == Err::<(), AtErrorView>(
                            AtErrorView::NoResponse,
                        ) && (attempts > 0 ==> put_off(got.last()))
                        ||| got.len() > 0 && got.last() is Broken && outcome == Err::<
                            (),
                            AtErrorView,
                        >(AtErrorView::Io(got.last()->Broken_0))
                    }
                },
            }
        },
    decreases attempts,
{
    if let Some(outcome) = at::dialogue(attempts, n1, timeout, steps, looks) {
        let got = replies(attempts, n1, timeout, steps, looks);
        if attempts == 0 {
            assert(got.len() == 0);
        } else {
            lemma_asked_writes(at::probe(), steps, looks, timeout);
            let (reply, after, later) = at::asked(at::probe(), steps, looks, timeout)->0;
            if reply is Accepted {
                let cmd = vstd::utf8::encode_utf8(at::command(n1));
                lemma_asked_writes(cmd, after, later, timeout);
                assert(got[0] is Accepted);
                let (second, end, _) = at::asked(cmd, after, later, timeout)->0;
                assert(handed_over(end) =~= Seq::empty());
                reveal_with_fuel(repeated, 2);
                assert(handed_over(steps) =~= repeated(at::probe(), 1) + cmd);
            } else if reply is Broken {
                assert(got =~= seq![reply]);
                assert(got.drop_first() =~= Seq::empty());
                reveal_with_fuel(first_accepted, 2);
                assert(first_accepted(got) is None);
                assert(handed_over(after) =~= Seq::empty());
                reveal_with_fuel(repeated, 2);
                assert(handed_over(steps) =~= repeated(at::probe(), 1));
            } else {
                let less = (attempts - 1) as nat;
                law_answers_decide(less, n1, timeout, after, later);
                let rest = replies(less, n1, timeout, after, later);
                assert(got.drop_first() =~= rest);
                assert(got[0] == reply);
                assert forall|i: int| 0 < i < got.len() implies #[trigger] got[i] == rest[i - 1] by {
                }
                match first_accepted(rest) {
                    Some(j) => {
                        assert(first_accepted(got) == Some(j + 1));
                        let cmd = vstd::utf8::encode_utf8(at::command(n1));
                        assert(repeated(at::probe(), j + 2) == at::probe() + repeated(
                            at::probe(),
                            j + 1,
                        ));
                        assert(handed_over(steps) =~= repeated(at::probe(), j + 2) + cmd);
                    },
                    None => {
                        assert(first_accepted(got) is None);
                        if rest.len() > 0 {
                            assert(got.last() == rest.last());
                        }
                    },
                }
            }
        }
    }
}

/// How much there is to read: the bytes of all pieces, and one for each piece.
pub open spec fn weight(pieces: Seq<Option<Seq<u8>>>) -> nat
    decreases pieces.len(),
{
    if pieces.len() == 0 {
        0
    } else {
        1 + (match pieces[0] {
            Some(piece) => piece.len(),
            None => 0,
        }) + weight(pieces.drop_first())
    }
}

/// Each read leaves less to read.
pub proof fn law_each_read_leaves_less(view: MockView)
    requires
        view.to_read.len() > 0,
    ensures
        weight(view.after_read(READ_SIZE as nat).to_read) < weight(view.to_read),
{
    let next = view.after_read(READ_SIZE as nat).to_read;
    let rest = view.to_read.drop_first();
    match view.to_read[0] {
        Some(piece) if piece.len() > READ_SIZE => {
            assert(next.drop_first() =~= rest);
        },
        _ => {
            assert(next == rest);
        },
    }
}

/// What a stand-in answers, read in time, behind the words heard so far; and what it
/// holds then.
pub open spec fn heard(view: MockView, words: Seq<char>) -> (AtReplyView, MockView)
    decreases weight(view.to_read),
{
    let next = view.after_read(READ_SIZE as nat);
    match view.next_read(READ_SIZE as nat) {
        Err(_) => (AtReplyView::Silent, next),
        Ok(bytes) => {
            proof {
                law_each_read_leaves_less(view);
            }
            if bytes.len() == 0 {
                heard(next, words)
            } else {
                let all = words + text::lossy(bytes);
                match at::verdict(all) {
                    Some(reply) => (reply, next),
                    None => heard(next, all),
                }
            }
        },
    }
}

/// What a stand-in answers when something is said to it; and what it holds then.
pub open spec fn answered(view: MockView, bytes: Seq<u8>) -> (AtReplyView, MockView) {
    heard(MockView { written: view.written + bytes, ..view }, Seq::empty())
}

/// What the dialogue comes to with a stand-in, by a clock on which nothing comes too
/// late; and what the stand-in holds then.
pub open spec fn rehearsed(attempts: nat, n1: u16, view: MockView) -> (
    Result<(), AtErrorView>,
    MockView,
)
    decreases attempts,
{
    if attempts == 0 {
        (Err(AtErrorView::NoResponse), view)
    } else {
        let (reply, next) = answered(view, at::probe());
        match reply {
            AtReplyView::Accepted => {
                let (second, end) = answered(next, vstd::utf8::encode_utf8(at::command(n1)));
                (at::granted(second), end)
            },
            _ => rehearsed((attempts - 1) as nat, n1, next),
        }
    }
}

/// A stand-in never breaks, and what is read from it makes it no heavier.
proof fn lemma_heard_never_breaks(view: MockView, words: Seq<char>)
    ensures
        !(heard(view, words).0 is Broken),
        weight(heard(view, words).1.to_read) <= weight(view.to_read),
    decreases weight(view.to_read),
{
    if view.to_read.len() > 0 {
        law_each_read_leaves_less(view);
        if let Ok(bytes) = view.next_read(READ_SIZE as nat) {
            let next = view.after_read(READ_SIZE as nat);
            lemma_heard_never_breaks(next, words);
            lemma_heard_never_breaks(next, words + text::lossy(bytes));
        }
    }
}

/// The rest of a round with a stand-in, from position `p` of everything that was done
/// with it: in time it hears what there is, and where there is nothing to read it is
/// silent whatever the clock shows.
proof fn lemma_round_with_stand_in(
    trace: Seq<StreamStep>,
    p: int,
    looks: Seq<u128>,
    begun: u128,
    timeout: u64,
    words: Seq<char>,
    left: nat,
)
    requires
        stream::truthful(trace),
        0 <= p <= trace.len(),
    ensures
        at::listen(trace.skip(p), looks, begun, timeout, words, left) matches Some(
            (reply, rest, later),
        ) ==> {
            let q = trace.len() - rest.len();
            let view = stream::replay(trace.take(p));
            &&& p <= q <= trace.len()
            &&& rest == trace.skip(q)
            &&& later.is_suffix_of(looks)
            &&& weight(view.to_read) < left && (forall|i: int|
                0 <= i < looks.len() ==> timer::passed(begun, #[trigger] looks[i]) < timeout) ==> (
            reply, stream::replay(trace.take(q))) == heard(view, words)
            &&& view.to_read.len() == 0 ==> reply is Silent && stream::replay(trace.take(q)) == view
        },
    decreases left,
{
    if let Some((reply, rest, later)) = at::listen(
        trace.skip(p),
        looks,
        begun,
        timeout,
        words,
        left,
    ) {
        let view = stream::replay(trace.take(p));
        if left == 0 {
            assert(looks.skip(0) =~= looks);
        } else if timer::passed(begun, looks[0]) >= timeout {
            assert(looks.skip(1) =~= looks.drop_first());
        } else {
            let ahead = looks.drop_first();
            assert(looks.skip(1) =~= ahead);
            assert(trace.skip(p).drop_first() =~= trace.skip(p + 1));
            stream::law_stand_in_keeps_its_word(trace, p);
            assert(trace.skip(p)[0] == trace[p]);
            let next = stream::replay(trace.take(p + 1));
            if view.to_read.len() > 0 {
                law_each_read_leaves_less(view);
            }
            if let StreamStep::Read(_, Ok(bytes)) = trace[p] {
                let all = if bytes.len() == 0 {
                    words
                } else {
                    words + text::lossy(bytes)
                };
                if bytes.len() == 0 || at::verdict(all) is None {
                    let less = (left - 1) as nat;
                    lemma_round_with_stand_in(trace, p + 1, ahead, begun, timeout, all, less);
                    let cut = ahead.len() - later.len();
                    assert(ahead.skip(cut) =~= looks.skip(cut + 1));
                    if forall|i: int|
                        0 <= i < looks.len() ==> timer::passed(begun, #[trigger] looks[i])
                            < timeout {
                        assert forall|i: int| 0 <= i < ahead.len() implies timer::passed(
                            begun,
                            #[trigger] ahead[i],
                        ) < timeout by {
                            assert(ahead[i] == looks[i + 1]);
                        }
                    }
                }
            }
        }
    }
}

/// Something said to a stand-in, and its answer.
proof fn lemma_asked_of_stand_in(
    trace: Seq<StreamStep>,
    p: int,
    bytes: Seq<u8>,
    looks: Seq<u128>,
    timeout: u64,
)
    requires
        stream::truthful(trace),
        0 <= p <= trace.len(),
    ensures
        at::asked(bytes, trace.skip(p), looks, timeout) matches Some((reply, rest, later)) ==> {
            let q = trace.len() - rest.len();
            let view = stream::replay(trace.take(p));
            &&& p <= q <= trace.len()
            &&& rest == trace.skip(q)
            &&& later.is_suffix_of(looks)
            &&& weight(view.to_read) < MOST_READINGS && timer::all_in_time(looks, timeout) ==> (
            reply, stream::replay(trace.take(q))) == answered(view, bytes)
            &&& view.to_read.len() == 0 ==> reply is Silent && stream::replay(trace.take(q))
                == (MockView { written: view.written + bytes, ..view })
        },
{
    if let Some((reply, rest, later)) = at::asked(bytes, trace.skip(p), looks, timeout) {
        let steps = trace.skip(p);
        assert(steps[0] == trace[p]);
        stream::law_stand_in_keeps_its_word(trace, p);
        assert(steps[1] == trace[p + 1]);
        stream::law_stand_in_keeps_its_word(trace, p + 1);
        assert(steps.skip(2) =~= trace.skip(p + 2));
        let view = stream::replay(trace.take(p));
        let told = stream::replay(trace.take(p + 2));
        assert(told == (MockView { written: view.written + bytes, ..view }));
        lemma_round_with_stand_in(
            trace,
            p + 2,
            looks.drop_first(),
            looks[0],
            timeout,
            Seq::empty(),
            MOST_READINGS as nat,
        );
        let ahead = looks.drop_first();
        let cut = ahead.len() - later.len();
        assert(ahead.skip(cut) =~= looks.skip(cut + 1));
        if timer::all_in_time(looks, timeout) {
            assert forall|i: int| 0 <= i < ahead.len() implies timer::passed(
                looks[0],
                #[trigger] ahead[i],
            ) < timeout by {
                assert(ahead[i] == looks[i + 1]);
            }
        }
    }
}

/// Readings that are in time stay so without the first of them.
proof fn lemma_later_in_time(looks: Seq<u128>, later: Seq<u128>, timeout: u64)
    requires
        timer::all_in_time(looks, timeout),
        later.is_suffix_of(looks),
    ensures
        timer::all_in_time(later, timeout),
{
    let cut = looks.len() - later.len();
    assert forall|i: int, j: int| 0 <= i < later.len() && 0 <= j < later.len() implies timer::passed(
        #[trigger] later[i],
        #[trigger] later[j],
    ) < timeout by {
        assert(later[i] == looks[i + cut]);
        assert(later[j] == looks[j + cut]);
    }
}

/// With a stand-in, and by a clock on which nothing comes too late, the dialogue is the
/// rehearsed one: what was laid down to be read decides its outcome, what was written,
/// and what is left to be read.
pub proof fn law_stand_in_is_rehearsed(
    attempts: nat,
    n1: u16,
    timeout: u64,
    trace: Seq<StreamStep>,
    p: int,
    looks: Seq<u128>,
)
    requires
        stream::truthful(trace),
        0 <= p <= trace.len(),
        timer::all_in_time(looks, timeout),
        weight(stream::replay(trace.take(p)).to_read) < MOST_READINGS,
    ensures
        at::dialogue(attempts, n1, timeout, trace.skip(p), looks) matches Some(outcome) ==> (
        outcome, stream::replay(trace)) == rehearsed(attempts, n1, stream::replay(trace.take(p))),
    decreases attempts,
{
    let view = stream::replay(trace.take(p));
    if at::dialogue(attempts, n1, timeout, trace.skip(p), looks) is Some {
        if attempts == 0 {
            assert(trace.take(p) =~= trace);
        } else {
            lemma_asked_of_stand_in(trace, p, at::probe(), looks, timeout);
            let (reply, rest, later) = at::asked(at::probe(), trace.skip(p), looks, timeout)->0;
            let q = trace.len() - rest.len();
            let (_, next) = answered(view, at::probe());
            lemma_heard_never_breaks(
                MockView { written: view.written + at::probe(), ..view },
                Seq::empty(),
            );
            lemma_later_in_time(looks, later, timeout);
            if reply is Accepted {
                let cmd = vstd::utf8::encode_utf8(at::command(n1));
                lemma_asked_of_stand_in(trace, q, cmd, later, timeout);
                let (_, end, _) = at::asked(cmd, trace.skip(q), later, timeout)->0;
                assert(trace.take(trace.len() - end.len()) =~= trace);
            } else {
                law_stand_in_is_rehearsed((attempts - 1) as nat, n1, timeout, trace, q, later);
            }
        }
    }
}

/// A stand-in with nothing to read is given up whatever the clock shows: the question
/// was written as often as allowed, and nothing else.
pub proof fn law_silent_stand_in_is_given_up(
    attempts: nat,
    n1: u16,
    timeout: u64,
    trace: Seq<StreamStep>,
    p: int,
    looks: Seq<u128>,
)
    requires
        stream::truthful(trace),
        0 <= p <= trace.len(),
        stream::replay(trace.take(p)).to_read.len() == 0,
    ensures
        at::dialogue(attempts, n1, timeout, trace.skip(p), looks) matches Some(outcome) ==> {
            let view = stream::replay(trace.take(p));
            &&& outcome == Err::<(), AtErrorView>(AtErrorView::NoResponse)
            &&& stream::replay(trace) == (MockView {
                written: view.written + repeated(at::probe(), attempts),
                ..view
            })
        },
    decreases attempts,
{
    let view = stream::replay(trace.take(p));
    if at::dialogue(attempts, n1, timeout, trace.skip(p), looks) is Some {
        if attempts == 0 {
            assert(trace.take(p) =~= trace);
            assert(view.written + repeated(at::probe(), 0) =~= view.written);
        } else {
            lemma_asked_of_stand_in(trace, p, at::probe(), looks, timeout);
            let (_, rest, later) = at::asked(at::probe(), trace.skip(p), looks, timeout)->0;
            let q = trace.len() - rest.len();
            let less = (attempts - 1) as nat;
            law_silent_stand_in_is_given_up(less, n1, timeout, trace, q, later);
            assert((view.written + at::probe()) + repeated(at::probe(), less) =~= view.written
                + repeated(at::probe(), attempts));
        }
    }
}

/// A stand-in that is laid out with `OK` to the question and `OK` to the command is
/// entered, and exactly the question and the command were written.
pub proof fn law_answering_stand_in_is_entered(
    attempts: nat,
    n1: u16,
    view: MockView,
    first: Seq<u8>,
    second: Seq<u8>,
)
    requires
        attempts > 0,
        view.to_read == seq![Some(first), Some(second)],
        0 < first.len() <= READ_SIZE,
        0 < second.len() <= READ_SIZE,
        text::occurs(text::lossy(first), "OK"@),
        text::occurs(text::lossy(second), "OK"@),
    ensures
        rehearsed(attempts, n1, view) == (
            Ok::<(), AtErrorView>(()),
            MockView {
                to_read: Seq::empty(),
                written: view.written + at::probe() + vstd::utf8::encode_utf8(at::command(n1)),
            },
        ),
{
    assert(view.to_read.drop_first() =~= seq![Some(second)]);
    assert(seq![Some(second)].drop_first() =~= Seq::<Option<Seq<u8>>>::empty());
    assert(Seq::<char>::empty() + text::lossy(first) =~= text::lossy(first));
    assert(Seq::<char>::empty() + text::lossy(second) =~= text::lossy(second));
}

/// A stand-in that answers the command by `ERROR` is reported with its words.
pub proof fn law_refusing_stand_in_is_reported(
    attempts: nat,
    n1: u16,
    view: MockView,
    first: Seq<u8>,
    second: Seq<u8>,
)
    requires
        attempts > 0,
        view.to_read == seq![Some(first), Some(second)],
        0 < first.len() <= READ_SIZE,
        0 < second.len() <= READ_SIZE,
        text::occurs(text::lossy(first), "OK"@),
        !text::occurs(text::lossy(second), "OK"@),
        text::occurs(text::lossy(second), "ERROR"@),
    ensures
        rehearsed(attempts, n1, view).0 == Err::<(), AtErrorView>(
            AtErrorView::Rejected(text::trimmed(text::lossy(second))),
        ),
        rehearsed(attempts, n1, view).1.written == view.written + at::probe()
            + vstd::utf8::encode_utf8(at::command(n1)),
{
    assert(view.to_read.drop_first() =~= seq![Some(second)]);
    assert(Seq::<char>::empty() + text::lossy(first) =~= text::lossy(first));
    assert(Seq::<char>::empty() + text::lossy(second) =~= text::lossy(second));
}

/// A round of silence, or an `ERROR`, uses up one question: what is left decides as it
/// would have from there.
pub proof fn law_put_off_is_asked_again(attempts: nat, n1: u16, view: MockView)
    requires
        attempts > 0,
        put_off(answered(view, at::probe()).0),
    ensures
        rehearsed(attempts, n1, view) == rehearsed(
            (attempts - 1) as nat,
            n1,
            answered(view, at::probe()).1,
        ),
        view.to_read.len() > 0 && view.to_read[0] is None ==> answered(view, at::probe()) == (
            AtReplyView::Silent,
            MockView {
                to_read: view.to_read.drop_first(),
                written: view.written + at::probe(),
            },
        ),
{
}

/// What is said: `AT` and a carriage return, and the command with the longest information
/// in decimal in its place, a carriage return behind it.
pub proof fn law_what_the_dialogue_says(n1: u16)
    ensures
        at::probe() == seq![0x41u8, 0x54, 0x0D],
        ({
            let cmd = at::command(n1);
            let number = text::decimal(n1 as nat);
            let n = number.len() as int;
            &&& cmd.len() == n + 28
            &&& cmd.take(14) == "AT+CMUX=0,0,5,"@
            &&& cmd.subrange(14, 14 + n) == number
            &&& cmd.subrange(14 + n, n + 27) == ",10,3,30,10,2"@
            &&& cmd.last() as int == 0x0D
        }),
{
    reveal_strlit("AT+CMUX=0,0,5,");
    reveal_strlit(",10,3,30,10,2\r");
    reveal_strlit(",10,3,30,10,2");
    let cmd = at::command(n1);
    let number = text::decimal(n1 as nat);
    let n = number.len() as int;
    assert(cmd.take(14) =~= "AT+CMUX=0,0,5,"@);
    assert(cmd.subrange(14, 14 + n) =~= number);
    assert(cmd.subrange(14 + n, n + 27) =~= ",10,3,30,10,2"@);
}

/// What words say: `OK` anywhere in them accepts; else `ERROR` anywhere refuses, in these
/// words without the white space around them; else they say nothing yet.
pub proof fn law_words_that_decide(words: Seq<char>)
    ensures
        ({
            let ok = exists|i: int|
                0 <= i && i + 2 <= words.len() && #[trigger] words[i] == 'O' && words[i + 1] == 'K';
            let error = exists|i: int|
                {
                    &&& 0 <= i
                    &&& i + 5 <= words.len()
                    &&& #[trigger] words[i] == 'E'
                    &&& words[i + 1] == 'R'
                    &&& words[i + 2] == 'R'
                    &&& words[i + 3] == 'O'
                    &&& words[i + 4] == 'R'
                };
            at::verdict(words) == (if ok {
                Some(AtReplyView::Accepted)
            } else if error {
                Some(AtReplyView::Refused(text::trimmed(words)))
            } else {
                None
            })
        }),
{
    reveal_strlit("OK");
    reveal_strlit("ERROR");
    assert forall|i: int| #[trigger] text::occurs_at(words, "OK"@, i) <==> (0 <= i && i + 2
        <= words.len() && words[i] == 'O' && words[i + 1] == 'K') by {
        if 0 <= i && i + 2 <= words.len() {
            let part = words.subrange(i, i + 2);
            assert(part[0] == words[i] && part[1] == words[i + 1]);
            if words[i] == 'O' && words[i + 1] == 'K' {
                assert(part =~= "OK"@);
            }
        }
    }
    assert forall|i: int| #[trigger] text::occurs_at(words, "ERROR"@, i) <==> (0 <= i && i + 5
        <= words.len() && words[i] == 'E' && words[i + 1] == 'R' && words[i + 2] == 'R' && words[i
        + 3] == 'O' && words[i + 4] == 'R') by {
        if 0 <= i && i + 5 <= words.len() {
            let part = words.subrange(i, i + 5);
            assert(part[0] == words[i] && part[1] == words[i + 1] && part[2] == words[i + 2]
                && part[3] == words[i + 3] && part[4] == words[i + 4]);
            if words[i] == 'E' && words[i + 1] == 'R' && words[i + 2] == 'R' && words[i + 3] == 'O'
                && words[i + 4] == 'R' {
                assert(part =~= "ERROR"@);
            }
        }
    }
    if text::occurs(words, "OK"@) {
        let i = choose|i: int| text::occurs_at(words, "OK"@, i);
        assert(words[i] == 'O');
    }
    if exists|i: int|
        0 <= i && i + 2 <= words.len() && #[trigger] words[i] == 'O' && words[i + 1] == 'K' {
        let i = choose|i: int|
            0 <= i && i + 2 <= words.len() && #[trigger] words[i] == 'O' && words[i + 1] == 'K';
        assert(text::occurs_at(words, "OK"@, i));
    }
    if text::occurs(words, "ERROR"@) {
        let i = choose|i: int| text::occurs_at(words, "ERROR"@, i);
        assert(words[i] == 'E');
    }
    if !text::occurs(words, "ERROR"@) {
        assert forall|i: int|
            0 <= i && i + 5 <= words.len() && #[trigger] words[i] == 'E' && words[i + 1] == 'R'
                && words[i + 2] == 'R' && words[i + 3] == 'O' && words[i + 4] == 'R' implies false by {
            assert(text::occurs_at(words, "ERROR"@, i));
        }
    }
}

/// What the answer to the command means, and how it is told: `OK` is success, `ERROR` a
/// refusal with its words, silence no response, and a broken line an error with its cause.
pub proof fn law_what_an_answer_means(words: Seq<char>)
    ensures
        at::granted(AtReplyView::Accepted) == Ok::<(), AtErrorView>(()),
        at::granted(AtReplyView::Refused(words)) == Err::<(), AtErrorView>(
            AtErrorView::Rejected(words),
        ),
        at::granted(AtReplyView::Silent) == Err::<(), AtErrorView>(AtErrorView::NoResponse),
        at::granted(AtReplyView::Broken(words)) == Err::<(), AtErrorView>(AtErrorView::Io(words)),
        AtErrorView::NoResponse.text() == "模块无响应"@,
        AtErrorView::Rejected(words).text() == "模块拒绝: "@ + words,
        AtErrorView::Io(words).text() == "串口错误: "@ + words,
{
}

/// What each read does to a round that is on and in time: one that brings nothing is
/// passed over, one that brings bytes puts their words behind the others, one that is not
/// in time ends the round in silence, and one that fails breaks it off with its cause.
pub proof fn law_what_a_read_does(
    got: Result<Seq<u8>, stream::StreamErrorView>,
    now: u128,
    steps: Seq<StreamStep>,
    looks: Seq<u128>,
    begun: u128,
    timeout: u64,
    words: Seq<char>,
    left: nat,
)
    requires
        left > 0,
        now - begun < timeout,
        timeout > 0,
    ensures
        at::listen(
            seq![StreamStep::Read(256, got)] + steps,
            seq![now] + looks,
            begun,
            timeout,
            words,
            left,
        ) == (match got {
            Ok(bytes) => if bytes.len() == 0 {
                at::listen(steps, looks, begun, timeout, words, (left - 1) as nat)
            } else {
                let all = words + text::lossy(bytes);
                match at::verdict(all) {
                    Some(reply) => Some((reply, steps, looks)),
                    None => at::listen(steps, looks, begun, timeout, all, (left - 1) as nat),
                }
            },
            Err(e) => if e.timed_out {
                Some((AtReplyView::Silent, steps, looks))
            } else {
                Some((AtReplyView::Broken(e.why), steps, looks))
            },
        }),
{
    assert((seq![StreamStep::Read(256, got)] + steps).drop_first() =~= steps);
    assert((seq![now] + looks).drop_first() =~= looks);
    timer::law_a_wait_lasts_its_time(begun, now, timeout);
}

/// A line on which something cannot be written, or not sent on its way, is broken: its
/// cause is reported, and no answer is awaited. Where both went well an answer is.
pub proof fn law_saying_something_needs_the_line(
    bytes: Seq<u8>,
    wrote: Result<(), stream::StreamErrorView>,
    flushed: Result<(), stream::StreamErrorView>,
    steps: Seq<StreamStep>,
    looks: Seq<u128>,
    timeout: u64,
)
    ensures
        wrote matches Err(e) ==> at::asked(
            bytes,
            seq![StreamStep::Wrote(bytes, wrote)] + steps,
            looks,
            timeout,
        ) == Some((AtReplyView::Broken(e.why), steps, looks)),
        wrote is Ok ==> at::asked(
            bytes,
            seq![StreamStep::Wrote(bytes, wrote), StreamStep::Flushed(flushed)] + steps,
            looks,
            timeout,
        ) == (match flushed {
            Err(e) => Some((AtReplyView::Broken(e.why), steps, looks)),
            Ok(_) => at::round(steps, looks, timeout),
        }),
{
    let one = seq![StreamStep::Wrote(bytes, wrote)] + steps;
    let two = seq![StreamStep::Wrote(bytes, wrote), StreamStep::Flushed(flushed)] + steps;
    assert(one.drop_first() =~= steps);
    assert(two.skip(2) =~= steps);
}

} // verus!
