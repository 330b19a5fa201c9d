//! What holds of a connection over many reads and writes.

use crate::codec::{
    frame, length_prefix, lemma_be_bytes_len, lemma_be_value_of_bytes, lemma_radix_pow_eight,
};
use crate::connection::{
    frames_wire, ConnectionView, ReadOutcome, ReadState, ReadStep, WriteOutcome, WriteState,
};
use vstd::prelude::*;

verus! {

/// `count` reads in a row that would have blocked.
pub open spec fn stalls(count: nat) -> Seq<ReadOutcome> {
    Seq::new(count, |i: int| ReadOutcome::WouldBlock)
}

/// The messages that a step hands out.
pub open spec fn step_messages(step: ReadStep) -> Seq<Seq<u8>> {
    match step {
        ReadStep::Message(bytes) => seq![bytes@],
        _ => Seq::empty(),
    }
}

/// The bytes that the socket took in a write that ended with `outcome`.
pub open spec fn sent(conn: ConnectionView, outcome: WriteOutcome) -> Seq<u8> {
    match (conn.write_want(), outcome) {
        (Some(bytes), WriteOutcome::Wrote(n)) => if n >= bytes.len() {
            bytes
        } else {
            bytes.subrange(0, n as int)
        },
        _ => Seq::empty(),
    }
}

/// The state after the reads `outcomes`, one after the other, and the
/// messages that they completed; `None` once a read has failed the
/// connection.
pub open spec fn read_run(conn: ConnectionView, outcomes: Seq<ReadOutcome>) -> Option<
    (ConnectionView, Seq<Seq<u8>>),
>
    decreases outcomes.len(),
{
    if outcomes.len() == 0 {
        Some((conn, Seq::empty()))
    } else {
        match conn.read_result(outcomes[0]) {
            Err(_) => None,
            Ok(step) => match read_run(conn.read_next(outcomes[0]), outcomes.drop_first()) {
                None => None,
                Some((end, messages)) => Some((end, step_messages(step) + messages)),
            },
        }
    }
}

/// The state after the writes `outcomes`, one after the other, and the bytes
/// that the socket took in them; `None` once a write has failed the
/// connection.
pub open spec fn write_run(conn: ConnectionView, outcomes: Seq<WriteOutcome>) -> Option<
    (ConnectionView, Seq<u8>),
>
    decreases outcomes.len(),
{
    if outcomes.len() == 0 {
        Some((conn, Seq::empty()))
    } else {
        match conn.write_result(outcomes[0]) {
            Err(_) => None,
            Ok(_) => match write_run(conn.write_next(outcomes[0]), outcomes.drop_first()) {
                None => None,
                Some((end, bytes)) => Some((end, sent(conn, outcomes[0]) + bytes)),
            },
        }
    }
}

/// Reads that come one after the other run as the first lot, then the
/// second from where the first ended.
pub proof fn lemma_read_run_concat(conn: ConnectionView, first: Seq<ReadOutcome>, second: Seq<ReadOutcome>)
    ensures
        read_run(conn, first + second) == match read_run(conn, first) {
            None => None,
            Some((mid, early)) => match read_run(mid, second) {
                None => None,
                Some((end, late)) => Some((end, early + late)),
            },
        },
    decreases first.len(),
{
    if first.len() == 0 {
        assert(first + second =~= second);
        match read_run(conn, second) {
            None => {},
            Some((end, late)) => {
                assert(Seq::<Seq<u8>>::empty() + late =~= late);
            },
        }
    } else {
        let all = first + second;
        assert(all[0] == first[0]);
        assert(all.drop_first() =~= first.drop_first() + second);
        let next = conn.read_next(first[0]);
        lemma_read_run_concat(next, first.drop_first(), second);
        match conn.read_result(first[0]) {
            Err(_) => {},
            Ok(step) => {
                match read_run(next, first.drop_first()) {
                    None => {},
                    Some((mid, early)) => {
                        match read_run(mid, second) {
                            None => {},
                            Some((end, late)) => {
                                assert(step_messages(step) + (early + late) =~= (step_messages(step)
                                    + early) + late);
                            },
                        }
                    },
                }
            },
        }
    }
}

/// Reads that would have blocked change nothing and complete nothing.
pub proof fn lemma_read_run_stalls(conn: ConnectionView, count: nat)
    ensures
        read_run(conn, stalls(count)) == Some((conn, Seq::<Seq<u8>>::empty())),
    decreases count,
{
    if count > 0 {
        assert(stalls(count).drop_first() =~= stalls((count - 1) as nat));
        lemma_read_run_stalls(conn, (count - 1) as nat);
        assert(step_messages(ReadStep::NoMessage) + Seq::<Seq<u8>>::empty() =~= Seq::<
            Seq<u8>,
        >::empty());
    }
}

/// A length prefix that arrives whole after any number of would-blocks,
/// followed by its payload that arrives whole after any number of
/// would-blocks, completes no message before the payload is in, and exactly
/// the one message once it is.
pub proof fn lemma_read_continuation(
    conn: ConnectionView,
    before: nat,
    between: nat,
    prefix: Vec<u8>,
    payload: Vec<u8>,
    cut: int,
)
    requires
        conn.read_state == ReadState::AwaitingLength,
        0 < payload@.len() <= u64::MAX,
        prefix@ == length_prefix(payload@.len()),
        0 <= cut <= before + between + 1,
    ensures
        ({
            let feed = stalls(before) + seq![ReadOutcome::Data(prefix)] + stalls(between)
                + seq![ReadOutcome::Data(payload)];
            &&& read_run(conn, feed) == Some((conn, seq![payload@]))
            &&& read_run(conn, feed.take(cut)) matches Some((_, messages)) && messages.len() == 0
        }),
{
    let len = payload@.len();
    lemma_be_bytes_len(len, 8);
    lemma_radix_pow_eight();
    lemma_be_value_of_bytes(len, 8);
    let head = stalls(before) + seq![ReadOutcome::Data(prefix)] + stalls(between);
    let last = seq![ReadOutcome::Data(payload)];
    let feed = head + last;
    let waiting = ConnectionView { read_state: ReadState::AwaitingPayload(len as u64), ..conn };
    let none = Seq::<Seq<u8>>::empty();

    // up to the prefix
    lemma_read_run_stalls(conn, before);
    let first = seq![ReadOutcome::Data(prefix)];
    assert(read_run(conn, first) == Some((waiting, none))) by {
        assert(first.drop_first() =~= Seq::<ReadOutcome>::empty());
        assert(conn.read_next(first[0]) == waiting);
        assert(read_run(waiting, first.drop_first()) == Some((waiting, none)));
        assert(step_messages(ReadStep::More) + none =~= none);
    }
    lemma_read_run_concat(conn, stalls(before), first);
    assert(none + none =~= none);
    // up to the payload
    lemma_read_run_stalls(waiting, between);
    lemma_read_run_concat(conn, stalls(before) + first, stalls(between));
    assert(read_run(conn, head) == Some((waiting, none)));
    // the payload
    assert(read_run(waiting, last) == Some((conn, seq![payload@]))) by {
        assert(last.drop_first() =~= Seq::<ReadOutcome>::empty());
        assert(waiting.read_next(last[0]) == conn);
        assert(read_run(conn, last.drop_first()) == Some((conn, none)));
        assert(step_messages(ReadStep::Message(payload)) + none =~= seq![payload@]);
    }
    lemma_read_run_concat(conn, head, last);
    assert(none + seq![payload@] =~= seq![payload@]);
    // any shorter feed
    assert(feed.take(cut) =~= head.take(cut));
    assert(head =~= head.take(cut) + head.skip(cut));
    lemma_read_run_concat(conn, head.take(cut), head.skip(cut));
}

/// Queueing a frame behind a queue of whole frames puts its bytes behind
/// theirs.
pub proof fn lemma_frames_wire_push(queue: Seq<Seq<u8>>, last: Seq<u8>)
    ensures
        frames_wire(queue.push(last)) == frames_wire(queue) + frame(last),
    decreases queue.len(),
{
    let longer = queue.push(last);
    if queue.len() == 0 {
        assert(longer.drop_first() =~= Seq::<Seq<u8>>::empty());
        assert(frames_wire(longer.drop_first()) =~= Seq::<u8>::empty());
        assert(frames_wire(longer) =~= frame(last));
        assert(frames_wire(queue) + frame(last) =~= frame(last));
    } else {
        assert(longer.drop_first() =~= queue.drop_first().push(last));
        lemma_frames_wire_push(queue.drop_first(), last);
        assert(frames_wire(longer) =~= frames_wire(queue) + frame(last));
    }
}

/// A frame that is queued goes out strictly after everything that was owed
/// before it, the rest of a frame in progress included.
pub proof fn lemma_enqueue_wire(conn: ConnectionView, message: Seq<u8>)
    requires
        conn.wf(),
    ensures
        conn.enqueue(message).wf(),
        conn.enqueue(message).wire() == conn.wire() + frame(message),
{
    let after = conn.enqueue(message);
    lemma_frames_wire_push(conn.queue, message);
    if conn.queue.len() == 0 {
        assert(after.wire() =~= conn.wire() + frame(message));
    } else {
        assert(after.queue.drop_first() =~= conn.queue.drop_first().push(message));
        lemma_frames_wire_push(conn.queue.drop_first(), message);
        assert(after.wire() =~= conn.wire() + frame(message));
    }
}

/// One write takes the bytes that the socket took off the front of what is
/// owed, and nothing else changes what is owed.
pub proof fn lemma_write_step_wire(conn: ConnectionView, outcome: WriteOutcome)
    requires
        conn.wf(),
        conn.write_result(outcome).is_ok(),
    ensures
        conn.write_next(outcome).wf(),
        conn.wire() == sent(conn, outcome) + conn.write_next(outcome).wire(),
{
    let after = conn.write_next(outcome);
    let head = conn.queue[0];
    let rest = conn.queue.drop_first();
    lemma_be_bytes_len(head.len(), 8);
    match (conn.write_state, outcome) {
        (WriteState::Idle, WriteOutcome::Wrote(n)) => {
            assert(conn.wire() =~= sent(conn, outcome) + after.wire());
        },
        (WriteState::MidPayload, WriteOutcome::Wrote(n)) => {
            if n >= head.len() {
                assert(conn.wire() =~= sent(conn, outcome) + after.wire());
            } else {
                assert(after.queue.drop_first() =~= rest);
                assert(conn.wire() =~= sent(conn, outcome) + after.wire());
            }
        },
        _ => {
            assert(conn.wire() =~= sent(conn, outcome) + after.wire());
        },
    }
}

/// Over any run of writes that does not fail the connection, the bytes
/// that the socket took, followed by the bytes still owed, are the bytes
/// that were owed at the start: nothing is sent twice, dropped, or out of
/// order.
pub proof fn lemma_write_continuation(conn: ConnectionView, outcomes: Seq<WriteOutcome>)
    requires
        conn.wf(),
    ensures
        write_run(conn, outcomes) matches Some((end, bytes)) ==> end.wf() && conn.wire() == bytes
            + end.wire(),
    decreases outcomes.len(),
{
    if outcomes.len() == 0 {
        assert(conn.wire() =~= Seq::<u8>::empty() + conn.wire());
    } else if conn.write_result(outcomes[0]).is_ok() {
        let next = conn.write_next(outcomes[0]);
        lemma_write_step_wire(conn, outcomes[0]);
        lemma_write_continuation(next, outcomes.drop_first());
        match write_run(next, outcomes.drop_first()) {
            None => {},
            Some((end, bytes)) => {
                assert(conn.wire() =~= (sent(conn, outcomes[0]) + bytes) + end.wire());
            },
        }
    }
}

} // verus!
