//! What holds of the reactor across events: who a message reaches, and
//! what a reused token starts with.

use crate::codec::frame;
use crate::connection::{ConnectionView, ReadOutcome, ReadStep, WriteOutcome, WriteStep};
use crate::continuation::{lemma_enqueue_wire, lemma_write_step_wire, sent};
use crate::server::{rising, Event, PhaseView, ServerView};
use crate::slots::{lemma_live_below, lemma_opened_wf, lemma_removed_wf, lemma_updated_wf};
use vstd::prelude::*;

verus! {

/// The index behind the last recipient that a broadcast has served so far:
/// the one being written to, or the end of the list once reading goes on.
pub open spec fn served(server: ServerView, recipients: Seq<usize>) -> nat {
    match server.phase {
        PhaseView::Broadcasting { next, .. } => next + 1,
        _ => recipients.len(),
    }
}

/// Handing a message out from index `from` on reaches every recipient up
/// to the one whose queue was empty, which is being written to, or all of
/// them; each holds the message at the back of its queue, and every other
/// connection is as it was.
pub proof fn lemma_deliver(
    server: ServerView,
    origin: usize,
    message: Seq<u8>,
    recipients: Seq<usize>,
    from: nat,
    index: int,
)
    requires
        server.table_wf(),
        server.live(origin),
        from <= recipients.len(),
        rising(recipients),
        forall|i: int| 0 <= i < recipients.len() ==> server.live(#[trigger] recipients[i]),
        0 <= index < recipients.len(),
    ensures
        ({
            let after = server.deliver(origin, message, recipients, from);
            let token = recipients[index];
            &&& after.wf()
            &&& after.token == server.token
            &&& after.slots.capacity == server.slots.capacity
            &&& after.slots.vacant == server.slots.vacant
            &&& after.slots.conns.dom() == server.slots.conns.dom()
            &&& after.phase == PhaseView::Reading { token: origin } || exists|next: nat|
                from <= next < recipients.len() && server.conn(recipients[next as int]).queue.len()
                    == 0 && after.phase == (PhaseView::Broadcasting {
                    origin,
                    message,
                    recipients,
                    next,
                })
            &&& from <= index < served(after, recipients) ==> after.conn(token) == server.conn(
                token,
            ).enqueue(message)
            &&& !(from <= index < served(after, recipients)) ==> after.conn(token) == server.conn(
                token,
            )
        }),
    decreases recipients.len() - from,
{
    if from < recipients.len() {
        let at = recipients[from as int];
        let handed = server.with_conn(at, server.conn(at).enqueue(message));
        assert(handed.slots.conns.dom() =~= server.slots.conns.dom());
        assert(handed.table_wf());
        assert(index != from ==> recipients[index] != at);
        if server.conn(at).queue.len() == 0 {
            let after = handed.with_phase(
                PhaseView::Broadcasting { origin, message, recipients, next: from },
            );
            assert(after.wf());
        } else {
            assert forall|i: int| 0 <= i < recipients.len() implies handed.live(
                #[trigger] recipients[i],
            ) by {
                assert(server.live(recipients[i]));
            }
            lemma_deliver(handed, origin, message, recipients, from + 1, index);
        }
    }
}

/// The start of a broadcast: the read that completes a message
/// hands it to the live connections in rising order of their tokens, the
/// one it came from included. Every live connection is among the
/// recipients; those up to the first with an empty queue hold the message
/// at the back of their queue, and that one is written to at once.
pub proof fn lemma_broadcast_fan_out(server: ServerView, payload: Vec<u8>, token: usize)
    requires
        server.wf(),
        server.phase is Reading,
        server.conn(server.phase->Reading_token).read_result(ReadOutcome::Data(payload))
            == Ok::<ReadStep, crate::error::ConnectionError>(ReadStep::Message(payload)),
        server.live(token),
    ensures
        ({
            let origin = server.phase->Reading_token;
            let received = server.with_conn(
                origin,
                server.conn(origin).read_next(ReadOutcome::Data(payload)),
            );
            let recipients = server.slots.live();
            let after = server.step(Event::Read(ReadOutcome::Data(payload)));
            let index = recipients.index_of(token);
            &&& after.wf()
            &&& after.slots.conns.dom() == server.slots.conns.dom()
            &&& recipients.contains(token)
            &&& recipients.contains(origin)
            &&& after.phase == PhaseView::Reading { token: origin } || exists|next: nat|
                next < recipients.len() && after.phase == (PhaseView::Broadcasting {
                    origin,
                    message: payload@,
                    recipients,
                    next,
                })
            &&& index < served(after, recipients) ==> after.conn(token) == received.conn(
                token,
            ).enqueue(payload@)
            &&& index >= served(after, recipients) ==> after.conn(token) == received.conn(token)
        }),
{
    let origin = server.phase->Reading_token;
    let outcome = ReadOutcome::Data(payload);
    let received = server.with_conn(origin, server.conn(origin).read_next(outcome));
    let recipients = server.slots.live();
    lemma_live_below(server.slots.conns, server.slots.capacity as nat);
    assert(received.slots.conns.dom() =~= server.slots.conns.dom());
    assert(received.slots.live() == recipients) by {
        lemma_live_same_domain(
            server.slots.conns,
            received.slots.conns,
            server.slots.capacity as nat,
        );
    }
    assert(recipients.contains(token));
    assert(recipients.contains(origin));
    let index = recipients.index_of(token);
    assert(0 <= index < recipients.len() && recipients[index] == token);
    assert(received.table_wf());
    assert forall|i: int| 0 <= i < recipients.len() implies received.live(
        #[trigger] recipients[i],
    ) by {
        assert(recipients.contains(recipients[i]));
    }
    lemma_deliver(received, origin, payload@, recipients, 0, index);
}

/// A broadcast going on: once the write to one recipient is done,
/// the recipients behind it are served in turn, up to the next whose queue
/// was empty, or to the end.
pub proof fn lemma_broadcast_goes_on(server: ServerView, index: int)
    requires
        server.wf(),
        server.phase is Broadcasting,
        0 <= index < server.phase->Broadcasting_recipients.len(),
    ensures
        ({
            let origin = server.phase->Broadcasting_origin;
            let message = server.phase->Broadcasting_message;
            let recipients = server.phase->Broadcasting_recipients;
            let next = server.phase->Broadcasting_next;
            let after = server.with_phase(PhaseView::Idle).deliver(
                origin,
                message,
                recipients,
                next + 1,
            );
            let token = recipients[index];
            &&& after.wf()
            &&& after.phase == PhaseView::Reading { token: origin } || exists|later: nat|
                next < later < recipients.len() && after.phase == (PhaseView::Broadcasting {
                    origin,
                    message,
                    recipients,
                    next: later,
                })
            &&& next < index < served(after, recipients) ==> after.conn(token) == server.conn(
                token,
            ).enqueue(message)
            &&& !(next < index < served(after, recipients)) ==> after.conn(token) == server.conn(
                token,
            )
        }),
{
    let origin = server.phase->Broadcasting_origin;
    let message = server.phase->Broadcasting_message;
    let recipients = server.phase->Broadcasting_recipients;
    let next = server.phase->Broadcasting_next;
    lemma_deliver(server.with_phase(PhaseView::Idle), origin, message, recipients, next + 1, index);
}

/// The server after the writes `outcomes`, one after the other.
pub open spec fn relay_run(server: ServerView, outcomes: Seq<WriteOutcome>) -> ServerView
    decreases outcomes.len(),
{
    if outcomes.len() == 0 {
        server
    } else {
        relay_run(server.step(Event::Wrote(outcomes[0])), outcomes.drop_first())
    }
}

/// The bytes that the socket of `token` took in the writes `outcomes` of a
/// broadcast.
pub open spec fn relay_sent(server: ServerView, outcomes: Seq<WriteOutcome>, token: usize) -> Seq<
    u8,
>
    decreases outcomes.len(),
{
    if outcomes.len() == 0 {
        Seq::empty()
    } else {
        let here = match server.phase {
            PhaseView::Broadcasting { recipients, next, .. } => if recipients[next as int]
                == token {
                sent(server.conn(token), outcomes[0])
            } else {
                Seq::empty()
            },
            _ => Seq::empty(),
        };
        here + relay_sent(server.step(Event::Wrote(outcomes[0])), outcomes.drop_first(), token)
    }
}

/// Writes change nothing while no write is waited for.
pub proof fn lemma_relay_run_rests(server: ServerView, outcomes: Seq<WriteOutcome>, token: usize)
    requires
        !(server.phase is Broadcasting),
        !(server.phase is Writing),
    ensures
        relay_run(server, outcomes) == server,
        relay_sent(server, outcomes, token) == Seq::<u8>::empty(),
    decreases outcomes.len(),
{
    if outcomes.len() > 0 {
        lemma_relay_run_rests(server, outcomes.drop_first(), token);
        assert(Seq::<u8>::empty() + Seq::<u8>::empty() =~= Seq::<u8>::empty());
    }
}

/// Whether the broadcast that `server` is in has handed the message to the
/// recipient at `index`.
pub open spec fn handed(server: ServerView, index: int) -> bool {
    match server.phase {
        PhaseView::Broadcasting { next, .. } => index <= next,
        _ => true,
    }
}

/// A broadcast that runs to its end, from any point on: what the socket
/// of a recipient took since, followed by what is still owed to it, is what
/// was owed to it at that point, with the frame of the message behind it
/// where the recipient had not been served yet.
pub proof fn lemma_relay_to_the_end(
    server: ServerView,
    origin: usize,
    message: Seq<u8>,
    recipients: Seq<usize>,
    outcomes: Seq<WriteOutcome>,
    index: int,
)
    requires
        server.wf(),
        rising(recipients),
        forall|i: int| 0 <= i < recipients.len() ==> server.live(#[trigger] recipients[i]),
        0 <= index < recipients.len(),
        server.phase == (PhaseView::Reading { token: origin }) || exists|next: nat|
            server.phase == (PhaseView::Broadcasting { origin, message, recipients, next }),
        relay_run(server, outcomes).phase == (PhaseView::Reading { token: origin }),
    ensures
        ({
            let token = recipients[index];
            let end = relay_run(server, outcomes);
            &&& end.wf()
            &&& end.live(token)
            &&& relay_sent(server, outcomes, token) + end.conn(token).wire() == if handed(
                server,
                index,
            ) {
                server.conn(token).wire()
            } else {
                server.conn(token).wire() + frame(message)
            }
        }),
    decreases outcomes.len(),
{
    let token = recipients[index];
    let none = Seq::<u8>::empty();
    if server.phase == (PhaseView::Reading { token: origin }) {
        lemma_relay_run_rests(server, outcomes, token);
        assert(none + server.conn(token).wire() =~= server.conn(token).wire());
    } else {
        let next = server.phase->Broadcasting_next;
        let at = recipients[next as int];
        if outcomes.len() == 0 {
            assert(false);
        } else {
            let outcome = outcomes[0];
            let rest = outcomes.drop_first();
            let after = server.step(Event::Wrote(outcome));
            let written = server.conn(at).write_next(outcome);
            lemma_step_keeps_wf(server, Event::Wrote(outcome));
            match server.conn(at).write_result(outcome) {
                Err(_) => {
                    lemma_relay_run_rests(after, rest, token);
                    assert(false);
                },
                Ok(step) => {
                    lemma_write_step_wire(server.conn(at), outcome);
                    lemma_updated_wf(server.slots, at, written);
                    let between = server.with_conn(at, written);
                    assert forall|i: int| 0 <= i < recipients.len() implies between.live(
                        #[trigger] recipients[i],
                    ) && after.live(recipients[i]) by {
                        assert(server.live(recipients[i]));
                        if step == WriteStep::Done {
                            lemma_deliver(between, origin, message, recipients, next + 1, i);
                        }
                    }
                    if step == WriteStep::Done {
                        lemma_deliver(between, origin, message, recipients, next + 1, index);
                    }
                    lemma_relay_to_the_end(after, origin, message, recipients, rest, index);
                    let end = relay_run(after, rest);
                    let later = relay_sent(after, rest, token);
                    if index == next {
                        let here = sent(server.conn(at), outcome);
                        assert(after.conn(token) == written);
                        assert(handed(after, index));
                        assert((here + later) + end.conn(token).wire() =~= here + (later
                            + end.conn(token).wire()));
                    } else {
                        assert(recipients[index] != at);
                        assert(between.conn(token) == server.conn(token));
                        assert((none + later) + end.conn(token).wire() =~= later + end.conn(
                            token,
                        ).wire());
                        if !handed(server, index) && handed(after, index) {
                            lemma_enqueue_wire(server.conn(token), message);
                        }
                    }
                },
            }
        }
    }
}

/// A broadcast to its end: when the broadcast of a message has run
/// its course, every connection that was live when the message came in,
/// the one it came from included, has been handed its frame exactly once:
/// what its socket took meanwhile, followed by what is still owed to it, is
/// what was owed to it before, followed by the frame.
pub proof fn lemma_broadcast_reaches_all(
    server: ServerView,
    payload: Vec<u8>,
    outcomes: Seq<WriteOutcome>,
    token: usize,
)
    requires
        server.wf(),
        server.phase is Reading,
        server.conn(server.phase->Reading_token).read_result(ReadOutcome::Data(payload))
            == Ok::<ReadStep, crate::error::ConnectionError>(ReadStep::Message(payload)),
        server.live(token),
        relay_run(server.step(Event::Read(ReadOutcome::Data(payload))), outcomes).phase
            == server.phase,
    ensures
        ({
            let start = server.step(Event::Read(ReadOutcome::Data(payload)));
            let end = relay_run(start, outcomes);
            &&& end.wf()
            &&& end.live(token)
            &&& relay_sent(start, outcomes, token) + end.conn(token).wire() == server.conn(
                token,
            ).wire() + frame(payload@)
        }),
{
    let origin = server.phase->Reading_token;
    let outcome = ReadOutcome::Data(payload);
    let received = server.with_conn(origin, server.conn(origin).read_next(outcome));
    let recipients = server.slots.live();
    let start = server.step(Event::Read(outcome));
    lemma_broadcast_fan_out(server, payload, token);
    lemma_step_keeps_wf(server, Event::Read(outcome));
    lemma_live_below(server.slots.conns, server.slots.capacity as nat);
    let index = recipients.index_of(token);
    assert(0 <= index < recipients.len() && recipients[index] == token);
    assert forall|i: int| 0 <= i < recipients.len() implies start.live(
        #[trigger] recipients[i],
    ) by {
        assert(recipients.contains(recipients[i]));
        assert(server.live(recipients[i]));
    }
    lemma_relay_to_the_end(start, origin, payload@, recipients, outcomes, index);
    assert(received.conn(token).wire() == server.conn(token).wire());
    if handed(start, index) {
        lemma_updated_wf(server.slots, origin, server.conn(origin).read_next(outcome));
        lemma_enqueue_wire(received.conn(token), payload@);
    }
}

/// The live tokens depend on which slots are occupied alone.
pub proof fn lemma_live_same_domain(
    first: Map<usize, ConnectionView>,
    second: Map<usize, ConnectionView>,
    bound: nat,
)
    requires
        first.dom() == second.dom(),
    ensures
        crate::slots::live_below(first, bound) == crate::slots::live_below(second, bound),
    decreases bound,
{
    if bound > 0 {
        lemma_live_same_domain(first, second, (bound - 1) as nat);
        assert(first.contains_key((bound - 1) as usize) == second.contains_key(
            (bound - 1) as usize,
        ));
    }
}

/// A connection that is accepted takes a token that no live connection
/// has, and starts fresh: watched for reads and hangup, with nothing
/// queued, nothing owed to its socket and no message in progress, whoever
/// had the token before. Every other connection is as it was.
pub proof fn lemma_accepted_is_fresh(server: ServerView, other: usize)
    requires
        server.wf(),
        server.phase == PhaseView::Accepting,
        server.slots.vacant.len() > 0,
    ensures
        ({
            let token = server.slots.vacant[0];
            let after = server.step(Event::Accepted);
            &&& !server.live(token)
            &&& after.wf()
            &&& after.phase == PhaseView::Registering { token }
            &&& after.conn(token) == ConnectionView::fresh(token).registered()
            &&& after.conn(token).queue.len() == 0
            &&& after.conn(token).wire().len() == 0
            &&& server.live(other) ==> after.live(other) && after.conn(other) == server.conn(other)
        }),
{
    let token = server.slots.vacant[0];
    lemma_opened_wf(server.slots);
    lemma_updated_wf(server.slots.opened(), token, ConnectionView::fresh(token).registered());
}

/// A token whose connection has been removed is the next to be handed out,
/// and the connection accepted under it is a fresh one, whatever the
/// connection before it had queued. It comes under another generation and
/// another key than the one before it, and an event under the key of the
/// one before it is for nobody.
pub proof fn lemma_token_reuse(server: ServerView, token: usize, later: ServerView)
    requires
        server.table_wf(),
        server.live(token),
        later.slots == server.slots.removed(token),
        later.token == server.token,
        later.phase == PhaseView::Accepting,
    ensures
        ({
            let after = later.step(Event::Accepted);
            &&& !later.live(token)
            &&& later.wf()
            &&& after.wf()
            &&& after.phase == PhaseView::Registering { token }
            &&& after.conn(token) == ConnectionView::fresh(token).registered()
            &&& after.conn(token).queue.len() == 0
            &&& after.conn(token).wire().len() == 0
            &&& after.slots.generations[token as int] != server.slots.generations[token as int]
            &&& !after.slots.is_current(token, server.slots.generations[token as int])
            &&& after.key(token) != server.key(token)
            &&& after.addressee(server.key(token)) is None
        }),
{
    let freed = server.slots.removed(token);
    assert(freed.vacant[0] == token);
    lemma_removed_wf(server.slots, token);
    lemma_opened_wf(freed);
    lemma_updated_wf(freed.opened(), token, ConnectionView::fresh(token).registered());
}

/// The invariant of a server holds after every event that it admits.
pub proof fn lemma_step_keeps_wf(server: ServerView, event: Event)
    requires
        server.wf(),
        server.admits(event),
    ensures
        server.step(event).wf(),
        server.step(event).token == server.token,
        server.step(event).slots.capacity == server.slots.capacity,
{
    match (server.phase, event) {
        (PhaseView::Idle, Event::Ready { key, readiness }) => {
            if let Some(token) = server.addressee(key) {
                lemma_removed_wf(server.slots, token);
            }
        },
        (PhaseView::Writing { token, readable }, Event::Wrote(outcome)) => {
            lemma_removed_wf(server.slots, token);
            if server.conn(token).write_result(outcome).is_ok() {
                lemma_write_step_wire(server.conn(token), outcome);
                lemma_updated_wf(server.slots, token, server.conn(token).write_next(outcome));
            }
        },
        (PhaseView::Accepting, Event::Accepted) => {
            if server.slots.vacant.len() > 0 {
                let token = server.slots.vacant[0];
                lemma_opened_wf(server.slots);
                lemma_updated_wf(
                    server.slots.opened(),
                    token,
                    ConnectionView::fresh(token).registered(),
                );
            }
        },
        (PhaseView::Registering { token }, Event::Registered(ok)) => {
            lemma_removed_wf(server.slots, token);
        },
        (PhaseView::Reading { token }, Event::Read(outcome)) => {
            lemma_removed_wf(server.slots, token);
            let next = server.conn(token).read_next(outcome);
            lemma_updated_wf(server.slots, token, next);
            let received = server.with_conn(token, next);
            if let Ok(ReadStep::Message(message)) = server.conn(token).read_result(outcome) {
                let recipients = received.slots.live();
                lemma_live_below(received.slots.conns, received.slots.capacity as nat);
                assert forall|i: int| 0 <= i < recipients.len() implies received.live(
                    #[trigger] recipients[i],
                ) by {
                    assert(recipients.contains(recipients[i]));
                }
                if recipients.len() > 0 {
                    lemma_deliver(received, token, message@, recipients, 0, 0);
                }
            }
        },
        (PhaseView::Broadcasting { origin, message, recipients, next }, Event::Wrote(outcome)) => {
            let at = recipients[next as int];
            lemma_removed_wf(server.slots, origin);
            if server.conn(at).write_result(outcome).is_ok() {
                lemma_write_step_wire(server.conn(at), outcome);
                lemma_updated_wf(server.slots, at, server.conn(at).write_next(outcome));
                let after = server.with_conn(at, server.conn(at).write_next(outcome));
                assert forall|i: int| 0 <= i < recipients.len() implies after.live(
                    #[trigger] recipients[i],
                ) by {
                    assert(server.live(recipients[i]));
                }
                lemma_deliver(after, origin, message, recipients, next + 1, next as int);
            }
        },
        (PhaseView::Reregistering { token }, Event::Registered(ok)) => {
            lemma_removed_wf(server.slots, token);
        },
        _ => {},
    }
}

} // verus!
