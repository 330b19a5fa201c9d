//! The reactor: one listening socket, a slot table of live connections, and
//! the dispatch of readiness events over them.
//!
//! The reactor makes no socket call itself. It names the next call to make,
//! takes the event that says how the call ended, and moves on. The caller
//! runs the loop: it performs `pending`, and hands the outcome to `run`.

use crate::connection::{
    share, Connection, ConnectionView, ReadOutcome, ReadStep, WriteOutcome, WriteStep,
};
use crate::error::{Cause, ConnectionError};
use crate::interest::{Interest, Registration};
use crate::slots::{Slots, SlotsView};
use std::rc::Rc;
use vstd::prelude::*;

verus! {

/// The token of the listening socket. No slot ever has it.
pub const SERVER_TOKEN: usize = 10_000_000;

/// The keys of one generation: a connection in its `n`-th generation is
/// registered under its token plus `n` times this span.
pub const KEY_SPAN: usize = 0x100_0000;

/// The number of generations that keys tell apart.
pub const KEY_GENERATIONS: u64 = 256;

/// The key under which the poller reports the events of the connection that
/// has `token` in `generation`. One slot never has the same key twice in a
/// row.
pub open spec fn key_of(token: usize, generation: u64) -> usize {
    (token + KEY_SPAN * (generation % KEY_GENERATIONS)) as usize
}

/// The number of slots of a server made by `Server::new`.
pub const DEFAULT_SLOTS: usize = 128;

/// What the caller reports to the reactor.
#[derive(Debug, PartialEq, Eq)]
pub enum Event {
    /// The poller delivered a readiness event for the socket registered
    /// under `key`.
    Ready { key: usize, readiness: Interest },
    /// The listening socket yielded a new socket, which the caller holds.
    Accepted,
    /// The listening socket yielded nothing: it would block, or it failed.
    NoSocket,
    /// A read on a connection's socket ended.
    Read(ReadOutcome),
    /// A write on a connection's socket ended.
    Wrote(WriteOutcome),
    /// A registration with the poller ended; `true` where it succeeded.
    Registered(bool),
    /// A socket has been closed.
    Closed,
}

/// What the reactor asks the caller to do next.
#[derive(Debug, PartialEq, Eq)]
pub enum Action {
    /// Hand over the next readiness event, waiting in the poller for as
    /// long as it takes. Answered by `Event::Ready`.
    Poll,
    /// Accept on the listening socket. Answered by `Event::Accepted` or
    /// `Event::NoSocket`.
    Accept,
    /// File the socket just accepted under the token of the registration
    /// and register it with the poller. Answered by `Event::Registered`.
    Register(Registration),
    /// Register anew the socket that the token of the registration stands
    /// for. Answered by `Event::Registered`.
    Reregister(Registration),
    /// Read once, without blocking, up to `limit` bytes from the socket of
    /// `token`. Answered by `Event::Read`.
    Read { token: usize, limit: u64 },
    /// Write `bytes` once, without blocking, to the socket of `token`.
    /// Answered by `Event::Wrote`.
    Write { token: usize, bytes: Rc<Vec<u8>> },
    /// Close the socket of `token`, whose connection was given up for
    /// `cause`. Answered by `Event::Closed`.
    Close { token: usize, cause: Cause },
    /// Close the socket just accepted. Answered by `Event::Closed`.
    Refuse,
}

/// The mathematical content of an action.
pub enum ActionView {
    Poll,
    Accept,
    Register(Registration),
    Reregister(Registration),
    Read { token: usize, limit: u64 },
    Write { token: usize, bytes: Seq<u8> },
    Close { token: usize, cause: Cause },
    Refuse,
}

impl View for Action {
    type V = ActionView;

    open spec fn view(&self) -> ActionView {
        match *self {
            Action::Poll => ActionView::Poll,
            Action::Accept => ActionView::Accept,
            Action::Register(registration) => ActionView::Register(registration),
            Action::Reregister(registration) => ActionView::Reregister(registration),
            Action::Read { token, limit } => ActionView::Read { token, limit },
            Action::Write { token, bytes } => ActionView::Write { token, bytes: bytes@ },
            Action::Close { token, cause } => ActionView::Close { token, cause },
            Action::Refuse => ActionView::Refuse,
        }
    }
}

/// Where the reactor stands: which outcome it waits for.
pub enum Phase {
    /// Between events.
    Idle,
    /// A writable event of `token` is being served; `readable` says
    /// whether the event reported readable too.
    Writing { token: usize, readable: bool },
    /// Sockets are being accepted.
    Accepting,
    /// The connection just accepted under `token` is being registered.
    Registering { token: usize },
    /// Messages of `token` are being read.
    Reading { token: usize },
    /// A message from `origin` is being handed to the connections of
    /// `recipients`; the one at index `next` is being written to.
    Broadcasting { origin: usize, message: Rc<Vec<u8>>, recipients: Vec<usize>, next: usize },
    /// The connection of `token` is being registered anew.
    Reregistering { token: usize },
    /// The socket of the connection `token`, removed for `cause`, is being
    /// closed; `accepting` says whether accepting goes on after that.
    Closing { token: usize, accepting: bool, cause: Cause },
    /// A socket that found no slot is being closed.
    Refusing,
}

/// The mathematical content of a phase.
pub enum PhaseView {
    Idle,
    Writing { token: usize, readable: bool },
    Accepting,
    Registering { token: usize },
    Reading { token: usize },
    Broadcasting { origin: usize, message: Seq<u8>, recipients: Seq<usize>, next: nat },
    Reregistering { token: usize },
    Closing { token: usize, accepting: bool, cause: Cause },
    Refusing,
}

impl View for Phase {
    type V = PhaseView;

    open spec fn view(&self) -> PhaseView {
        match *self {
            Phase::Idle => PhaseView::Idle,
            Phase::Writing { token, readable } => PhaseView::Writing { token, readable },
            Phase::Accepting => PhaseView::Accepting,
            Phase::Registering { token } => PhaseView::Registering { token },
            Phase::Reading { token } => PhaseView::Reading { token },
            Phase::Broadcasting { origin, message, recipients, next } => PhaseView::Broadcasting {
                origin,
                message: message@,
                recipients: recipients@,
                next: next as nat,
            },
            Phase::Reregistering { token } => PhaseView::Reregistering { token },
            Phase::Closing { token, accepting, cause } => PhaseView::Closing {
                token,
                accepting,
                cause,
            },
            Phase::Refusing => PhaseView::Refusing,
        }
    }
}

/// Whether the tokens of `tokens` rise strictly.
pub open spec fn rising(tokens: Seq<usize>) -> bool {
    forall|i: int, j: int| 0 <= i < j < tokens.len() ==> tokens[i] < tokens[j]
}

/// The mathematical content of a server.
pub struct ServerView {
    /// The slot table.
    pub slots: SlotsView,
    /// The token of the listening socket.
    pub token: usize,
    /// Where the reactor stands.
    pub phase: PhaseView,
}

impl ServerView {
    /// Whether a connection lives at `token`.
    pub open spec fn live(self, token: usize) -> bool {
        self.slots.conns.contains_key(token)
    }

    /// The connection at `token`.
    pub open spec fn conn(self, token: usize) -> ConnectionView {
        self.slots.conns[token]
    }

    /// The key that the connection at `token` is registered under.
    pub open spec fn key(self, token: usize) -> usize {
        key_of(token, self.slots.generations[token as int])
    }

    /// How the connection at `token` is handed to the poller.
    pub open spec fn registration(self, token: usize) -> Registration {
        Registration { key: self.key(token), ..self.conn(token).registration() }
    }

    /// Whom an event under `key` is for: the listening socket, or the live
    /// connection that is registered under the key. An event under the key
    /// of a connection that has left its slot is for nobody.
    pub open spec fn addressee(self, key: usize) -> Option<usize> {
        let token = (key % KEY_SPAN) as usize;
        if key == self.token {
            Some(key)
        } else if self.live(token) && self.key(token) == key {
            Some(token)
        } else {
            None
        }
    }

    /// The slot table is well formed and leaves the listening token out.
    pub open spec fn table_wf(self) -> bool {
        &&& self.slots.wf()
        &&& self.token == SERVER_TOKEN
        &&& self.slots.capacity <= self.token
    }

    /// The connections that the phase speaks of are live, and the one that is
    /// being written to has something queued.
    pub open spec fn phase_wf(self) -> bool {
        match self.phase {
            PhaseView::Writing { token, .. } => self.live(token) && self.conn(token).queue.len()
                > 0,
            PhaseView::Registering { token } => self.live(token),
            PhaseView::Reading { token } => self.live(token),
            PhaseView::Reregistering { token } => self.live(token),
            PhaseView::Broadcasting { origin, recipients, next, .. } => {
                &&& self.live(origin)
                &&& next < recipients.len()
                &&& rising(recipients)
                &&& forall|i: int| 0 <= i < recipients.len() ==> self.live(#[trigger] recipients[i])
                &&& self.conn(recipients[next as int]).queue.len() > 0
            },
            _ => true,
        }
    }

    /// The invariant of a server.
    pub open spec fn wf(self) -> bool {
        self.table_wf() && self.phase_wf()
    }

    /// A server with `capacity` vacant slots, between events.
    pub open spec fn fresh(capacity: usize) -> ServerView {
        ServerView {
            slots: SlotsView::empty(capacity),
            token: SERVER_TOKEN,
            phase: PhaseView::Idle,
        }
    }

    /// The events that the reactor takes. The listening socket is
    /// registered for reads alone, and a writable event under its token,
    /// with neither error nor hangup, is not among them.
    pub open spec fn admits(self, event: Event) -> bool {
        match (self.phase, event) {
            (PhaseView::Idle, Event::Ready { key, readiness }) => !(key == self.token
                && readiness.writable && !readiness.error && !readiness.hup),
            _ => true,
        }
    }

    /// The server in another phase.
    pub open spec fn with_phase(self, phase: PhaseView) -> ServerView {
        ServerView { phase, ..self }
    }

    /// The server with the connection at `token` replaced.
    pub open spec fn with_conn(self, token: usize, connection: ConnectionView) -> ServerView {
        ServerView { slots: self.slots.updated(token, connection), ..self }
    }

    /// The server after the connection at `token` has been given up: the
    /// slot is freed and the socket is to be closed. Where nothing lives at
    /// `token` there is nothing to close.
    pub open spec fn closing(self, token: usize, accepting: bool, cause: Cause) -> ServerView {
        if self.live(token) {
            ServerView {
                slots: self.slots.removed(token),
                phase: PhaseView::Closing { token, accepting, cause },
                ..self
            }
        } else {
            self.with_phase(
                if accepting {
                    PhaseView::Accepting
                } else {
                    PhaseView::Idle
                },
            )
        }
    }

    /// The server after a readiness event, taken between events.
    ///
    /// An event for a token that is neither the listening one nor live is
    /// passed over. Error and hangup give the connection up. Writable is
    /// served before readable; readable on the listening token accepts, on
    /// any other it reads. A live connection with nothing to serve is
    /// registered anew.
    pub open spec fn ready(self, token: usize, readiness: Interest) -> ServerView {
        if token != self.token && !self.live(token) {
            self.with_phase(PhaseView::Idle)
        } else if readiness.error {
            self.closing(token, false, Cause::Error)
        } else if readiness.hup {
            self.closing(token, false, Cause::Hangup)
        } else if readiness.writable && token != self.token {
            if self.conn(token).queue.len() == 0 {
                self.closing(token, false, Cause::Connection(ConnectionError::Other))
            } else {
                self.with_phase(PhaseView::Writing { token, readable: readiness.readable })
            }
        } else if readiness.readable {
            if token == self.token {
                self.with_phase(PhaseView::Accepting)
            } else {
                self.with_phase(PhaseView::Reading { token })
            }
        } else if token != self.token {
            self.with_phase(PhaseView::Reregistering { token })
        } else {
            self.with_phase(PhaseView::Idle)
        }
    }

    /// The server after a socket has been accepted: a fresh connection,
    /// watched for reads, takes the first vacant slot and is to be
    /// registered; with no slot vacant the socket is to be refused.
    pub open spec fn accepted(self) -> ServerView {
        if self.slots.vacant.len() == 0 {
            self.with_phase(PhaseView::Refusing)
        } else {
            let token = self.slots.vacant[0];
            ServerView {
                slots: self.slots.opened().updated(
                    token,
                    ConnectionView::fresh(token).registered(),
                ),
                phase: PhaseView::Registering { token },
                ..self
            }
        }
    }

    /// The server after `message` has been handed to the connections of
    /// `recipients` from index `from` on, up to the first whose queue was
    /// empty: that one is to be written to at once. Once all are served,
    /// reading from `origin` goes on.
    pub open spec fn deliver(
        self,
        origin: usize,
        message: Seq<u8>,
        recipients: Seq<usize>,
        from: nat,
    ) -> ServerView
        decreases recipients.len() - from,
    {
        if from >= recipients.len() {
            self.with_phase(PhaseView::Reading { token: origin })
        } else {
            let token = recipients[from as int];
            let handed = self.with_conn(token, self.conn(token).enqueue(message));
            if self.conn(token).queue.len() == 0 {
                handed.with_phase(
                    PhaseView::Broadcasting { origin, message, recipients, next: from },
                )
            } else {
                handed.deliver(origin, message, recipients, from + 1)
            }
        }
    }

    /// The server after the write that served a writable event of `token`
    /// ended with `outcome`.
    pub open spec fn wrote(self, token: usize, readable: bool, outcome: WriteOutcome) -> ServerView {
        let after = self.with_conn(token, self.conn(token).write_next(outcome));
        match self.conn(token).write_result(outcome) {
            Err(e) => self.closing(token, false, Cause::Connection(e)),
            Ok(WriteStep::More) => after.with_phase(PhaseView::Writing { token, readable }),
            Ok(WriteStep::Done) => after.with_phase(
                if readable {
                    PhaseView::Reading { token }
                } else {
                    PhaseView::Reregistering { token }
                },
            ),
        }
    }

    /// The server after a read from `token` ended with `outcome`. A
    /// complete message is handed to every live connection, the one it came
    /// from included.
    pub open spec fn read(self, token: usize, outcome: ReadOutcome) -> ServerView {
        let after = self.with_conn(token, self.conn(token).read_next(outcome));
        match self.conn(token).read_result(outcome) {
            Err(e) => self.closing(token, false, Cause::Connection(e)),
            Ok(ReadStep::More) => after.with_phase(PhaseView::Reading { token }),
            Ok(ReadStep::NoMessage) => after.with_phase(PhaseView::Reregistering { token }),
            Ok(ReadStep::Message(message)) => after.deliver(token, message@, after.slots.live(), 0),
        }
    }

    /// The server after the write to the recipient at index `next` ended
    /// with `outcome`. A failure gives up the connection that the message
    /// came from, and the rest of the recipients go without.
    pub open spec fn relayed(
        self,
        origin: usize,
        message: Seq<u8>,
        recipients: Seq<usize>,
        next: nat,
        outcome: WriteOutcome,
    ) -> ServerView {
        let token = recipients[next as int];
        let after = self.with_conn(token, self.conn(token).write_next(outcome));
        match self.conn(token).write_result(outcome) {
            Err(e) => self.closing(origin, false, Cause::Connection(e)),
            Ok(WriteStep::More) => after.with_phase(
                PhaseView::Broadcasting { origin, message, recipients, next },
            ),
            Ok(WriteStep::Done) => after.deliver(origin, message, recipients, next + 1),
        }
    }

    /// The server after `event`. An event that the phase does not wait for
    /// changes nothing.
    pub open spec fn step(self, event: Event) -> ServerView {
        match (self.phase, event) {
            (PhaseView::Idle, Event::Ready { key, readiness }) => match self.addressee(key) {
                Some(token) => self.ready(token, readiness),
                None => self.with_phase(PhaseView::Idle),
            },
            (PhaseView::Writing { token, readable }, Event::Wrote(outcome)) => self.wrote(
                token,
                readable,
                outcome,
            ),
            (PhaseView::Accepting, Event::Accepted) => self.accepted(),
            (PhaseView::Accepting, Event::NoSocket) => self.with_phase(PhaseView::Idle),
            (PhaseView::Registering { token }, Event::Registered(ok)) => if ok {
                self.with_phase(PhaseView::Accepting)
            } else {
                self.closing(token, true, Cause::RegistrationFailure)
            },
            (PhaseView::Reading { token }, Event::Read(outcome)) => self.read(token, outcome),
            (
                PhaseView::Broadcasting { origin, message, recipients, next },
                Event::Wrote(outcome),
            ) => self.relayed(origin, message, recipients, next, outcome),
            (PhaseView::Reregistering { token }, Event::Registered(ok)) => if ok {
                self.with_phase(PhaseView::Idle)
            } else {
                self.closing(token, false, Cause::ReregistrationFailure)
            },
            (PhaseView::Closing { accepting, .. }, Event::Closed) => self.with_phase(
                if accepting {
                    PhaseView::Accepting
                } else {
                    PhaseView::Idle
                },
            ),
            (PhaseView::Refusing, Event::Closed) => self.with_phase(PhaseView::Idle),
            _ => self,
        }
    }

    /// The call that the reactor waits for.
    pub open spec fn pending(self) -> ActionView {
        match self.phase {
            PhaseView::Idle => ActionView::Poll,
            PhaseView::Writing { token, .. } => ActionView::Write {
                token,
                bytes: self.conn(token).write_want().unwrap(),
            },
            PhaseView::Accepting => ActionView::Accept,
            PhaseView::Registering { token } => ActionView::Register(self.registration(token)),
            PhaseView::Reading { token } => ActionView::Read {
                token,
                limit: self.conn(token).read_want(),
            },
            PhaseView::Broadcasting { recipients, next, .. } => ActionView::Write {
                token: recipients[next as int],
                bytes: self.conn(recipients[next as int]).write_want().unwrap(),
            },
            PhaseView::Reregistering { token } => ActionView::Reregister(
                self.registration(token),
            ),
            PhaseView::Closing { token, cause, .. } => ActionView::Close { token, cause },
            PhaseView::Refusing => ActionView::Refuse,
        }
    }
}

/// Handing a message out starts from the slot table alone: the phase that
/// the server was in does not matter.
pub proof fn lemma_deliver_any_phase(
    server: ServerView,
    phase: PhaseView,
    origin: usize,
    message: Seq<u8>,
    recipients: Seq<usize>,
    from: nat,
)
    ensures
        server.with_phase(phase).deliver(origin, message, recipients, from) == server.deliver(
            origin,
            message,
            recipients,
            from,
        ),
    decreases recipients.len() - from,
{
    if from < recipients.len() {
        let token = recipients[from as int];
        let handed = server.with_conn(token, server.conn(token).enqueue(message));
        lemma_deliver_any_phase(handed, phase, origin, message, recipients, from + 1);
        assert(server.with_phase(phase).with_conn(token, server.conn(token).enqueue(message))
            == handed.with_phase(phase));
    }
}

/// The relay server: the slot table of its connections and the phase of
/// its reactor.
pub struct Server {
    token: usize,
    conns: Slots,
    phase: Phase,
}

impl View for Server {
    type V = ServerView;

    closed spec fn view(&self) -> ServerView {
        ServerView { slots: self.conns@, token: self.token, phase: self.phase@ }
    }
}

impl Server {
    /// The invariant of a server.
    pub open spec fn wf(&self) -> bool {
        self@.wf()
    }

    /// A server with the default number of slots.
    pub fn new() -> (server: Server)
        ensures
            server@ == ServerView::fresh(DEFAULT_SLOTS),
            server.wf(),
    {
        Server::with_capacity(DEFAULT_SLOTS)
    }

    /// A server with `capacity` slots. Its tokens are the numbers below
    /// `capacity`, so the listening token bounds it.
    pub fn with_capacity(capacity: usize) -> (server: Server)
        requires
            capacity <= SERVER_TOKEN,
        ensures
            server@ == ServerView::fresh(capacity),
            server.wf(),
    {
        Server { token: SERVER_TOKEN, conns: Slots::with_capacity(capacity), phase: Phase::Idle }
    }

    /// The token of the listening socket.
    pub fn token(&self) -> (token: usize)
        ensures
            token == self@.token,
    {
        self.token
    }

    /// The number of slots of the table.
    pub fn capacity(&self) -> (capacity: usize)
        ensures
            capacity == self@.slots.capacity,
    {
        self.conns.capacity()
    }

    /// Whether a connection lives at `token`.
    pub fn contains(&self, token: usize) -> (found: bool)
        ensures
            found == self@.live(token),
    {
        self.conns.contains(token)
    }

    /// The generation of the connection at `token`, if one lives there. A
    /// token that is handed out again comes under another generation, so an
    /// event that was meant for an earlier connection can be told from one
    /// for the connection that has the token now.
    pub fn generation(&self, token: usize) -> (generation: Option<u64>)
        requires
            self.wf(),
        ensures
            generation == (if self@.live(token) {
                Some(self@.slots.generations[token as int])
            } else {
                None
            }),
    {
        self.conns.generation(token)
    }

    /// The live tokens, in rising order.
    pub fn tokens(&self) -> (tokens: Vec<usize>)
        ensures
            tokens@ == self@.slots.live(),
    {
        self.conns.tokens()
    }

    /// The connection at a live token.
    pub fn connection(&self, token: usize) -> (connection: &Connection)
        requires
            self@.live(token),
        ensures
            connection@ == self@.conn(token),
    {
        self.conns.get(token)
    }

    /// The registration of the listening socket: watched for reads,
    /// edge-triggered, and armed for good.
    pub fn register(&self) -> (registration: Registration)
        ensures
            registration == (Registration {
                token: self@.token,
                key: self@.token,
                interest: Interest::spec_readable(),
                edge: true,
                oneshot: false,
            }),
    {
        Registration {
            token: self.token,
            key: self.token,
            interest: Interest::readable(),
            edge: true,
            oneshot: false,
        }
    }

    /// Whether `event` is one that `run` takes.
    pub fn admits(&self, event: &Event) -> (ok: bool)
        ensures
            ok == self@.admits(*event),
    {
        match (&self.phase, event) {
            (Phase::Idle, Event::Ready { key, readiness }) => !(*key == self.token
                && readiness.writable && !readiness.error && !readiness.hup),
            _ => true,
        }
    }

    /// The call that the reactor waits for.
    pub fn pending(&self) -> (action: Action)
        requires
            self.wf(),
        ensures
            action@ == self@.pending(),
    {
        match &self.phase {
            Phase::Idle => Action::Poll,
            Phase::Writing { token, .. } => Action::Write {
                token: *token,
                bytes: self.conns.get(*token).write_want().unwrap(),
            },
            Phase::Accepting => Action::Accept,
            Phase::Registering { token } => Action::Register(self.registration(*token)),
            Phase::Reading { token } => Action::Read {
                token: *token,
                limit: self.conns.get(*token).read_want(),
            },
            Phase::Broadcasting { recipients, next, .. } => {
                let token = recipients[*next];
                Action::Write { token, bytes: self.conns.get(token).write_want().unwrap() }
            },
            Phase::Reregistering { token } => Action::Reregister(self.registration(*token)),
            Phase::Closing { token, cause, .. } => Action::Close { token: *token, cause: *cause },
            Phase::Refusing => Action::Refuse,
        }
    }

    /// The key that the connection at a live token is registered under.
    pub fn key(&self, token: usize) -> (key: usize)
        requires
            self.wf(),
            self@.live(token),
        ensures
            key == self@.key(token),
    {
        let generation = self.conns.generation(token).unwrap();
        let turn: usize = (generation % KEY_GENERATIONS) as usize;
        token + KEY_SPAN * turn
    }

    /// How the connection at a live token is handed to the poller.
    fn registration(&self, token: usize) -> (registration: Registration)
        requires
            self.wf(),
            self@.live(token),
        ensures
            registration == self@.registration(token),
    {
        let plain = self.conns.get(token).reregister();
        Registration {
            token: plain.token,
            key: self.key(token),
            interest: plain.interest,
            edge: plain.edge,
            oneshot: plain.oneshot,
        }
    }

    /// Whom an event under `key` is for.
    pub fn addressee(&self, key: usize) -> (token: Option<usize>)
        requires
            self.wf(),
        ensures
            token == self@.addressee(key),
    {
        let token: usize = key % KEY_SPAN;
        if key == self.token {
            Some(key)
        } else if self.conns.contains(token) && self.key(token) == key {
            Some(token)
        } else {
            None
        }
    }

    /// Gives up the connection at `token`.
    fn remove_token(&mut self, token: usize, accepting: bool, cause: Cause)
        requires
            old(self)@.table_wf(),
        ensures
            final(self)@ == old(self)@.closing(token, accepting, cause),
            final(self).wf(),
    {
        if self.conns.remove(token) {
            self.phase = Phase::Closing { token, accepting, cause };
        } else if accepting {
            self.phase = Phase::Accepting;
        } else {
            self.phase = Phase::Idle;
        }
    }

    /// Dispatches a readiness event.
    fn ready(&mut self, token: usize, readiness: Interest)
        requires
            old(self)@.table_wf(),
            !(token == old(self)@.token && readiness.writable && !readiness.error
                && !readiness.hup),
        ensures
            final(self)@ == old(self)@.ready(token, readiness),
            final(self).wf(),
    {
        if self.token != token && !self.conns.contains(token) {
            self.phase = Phase::Idle;
            return;
        }
        if readiness.error {
            self.remove_token(token, false, Cause::Error);
            return;
        }
        if readiness.hup {
            self.remove_token(token, false, Cause::Hangup);
            return;
        }
        if readiness.writable {
            if self.conns.get(token).queued() == 0 {
                self.remove_token(token, false, Cause::Connection(ConnectionError::Other));
            } else {
                self.phase = Phase::Writing { token, readable: readiness.readable };
            }
            return;
        }
        if readiness.readable {
            if self.token == token {
                self.phase = Phase::Accepting;
            } else {
                self.phase = Phase::Reading { token };
            }
            return;
        }
        if self.token != token {
            self.phase = Phase::Reregistering { token };
        } else {
            self.phase = Phase::Idle;
        }
    }

    /// Finds a slot for the socket just accepted.
    fn accept(&mut self)
        requires
            old(self)@.table_wf(),
        ensures
            final(self)@ == old(self)@.accepted(),
            final(self).wf(),
    {
        match self.conns.open() {
            None => {
                self.phase = Phase::Refusing;
            },
            Some(token) => {
                let connection = self.conns.get_mut(token);
                connection.register();
                self.phase = Phase::Registering { token };
            },
        }
    }

    /// Serves a writable event with the outcome of a write.
    fn writable(&mut self, token: usize, readable: bool, outcome: WriteOutcome)
        requires
            old(self)@.table_wf(),
            old(self)@.live(token),
            old(self)@.conn(token).queue.len() > 0,
        ensures
            final(self)@ == old(self)@.wrote(token, readable, outcome),
            final(self).wf(),
    {
        let connection = self.conns.get_mut(token);
        match connection.writable(outcome) {
            Err(e) => {
                assert(self@.slots.conns =~= old(self)@.slots.conns);
                self.remove_token(token, false, Cause::Connection(e));
            },
            Ok(WriteStep::More) => {
                self.phase = Phase::Writing { token, readable };
            },
            Ok(WriteStep::Done) => {
                if readable {
                    self.phase = Phase::Reading { token };
                } else {
                    self.phase = Phase::Reregistering { token };
                }
            },
        }
    }

    /// Hands `message` to the recipients from index `from` on.
    fn broadcast(&mut self, origin: usize, message: Rc<Vec<u8>>, recipients: Vec<usize>, from: usize)
        requires
            old(self)@.table_wf(),
            old(self)@.live(origin),
            from <= recipients@.len(),
            rising(recipients@),
            forall|i: int| 0 <= i < recipients@.len() ==> old(self)@.live(#[trigger] recipients@[i]),
        ensures
            final(self)@ == old(self)@.deliver(origin, message@, recipients@, from as nat),
            final(self).wf(),
    {
        let mut next = from;
        while next < recipients.len()
            invariant
                from <= next <= recipients@.len(),
                rising(recipients@),
                self@.table_wf(),
                self@.live(origin),
                forall|i: int| 0 <= i < recipients@.len() ==> self@.live(#[trigger] recipients@[i]),
                self@.deliver(origin, message@, recipients@, next as nat) == old(self)@.deliver(
                    origin,
                    message@,
                    recipients@,
                    from as nat,
                ),
            decreases recipients@.len() - next,
        {
            let token = recipients[next];
            let connection = self.conns.get_mut(token);
            let now = connection.send_message(share(&message));
            if now {
                self.phase = Phase::Broadcasting { origin, message, recipients, next };
                return;
            }
            next += 1;
        }
        self.phase = Phase::Reading { token: origin };
    }

    /// Serves a readable event with the outcome of a read.
    fn readable(&mut self, token: usize, outcome: ReadOutcome)
        requires
            old(self)@.table_wf(),
            old(self)@.live(token),
        ensures
            final(self)@ == old(self)@.read(token, outcome),
            final(self).wf(),
    {
        let connection = self.conns.get_mut(token);
        match connection.readable(outcome) {
            Err(e) => {
                assert(self@.slots.conns =~= old(self)@.slots.conns);
                self.remove_token(token, false, Cause::Connection(e));
            },
            Ok(ReadStep::More) => {
                self.phase = Phase::Reading { token };
            },
            Ok(ReadStep::NoMessage) => {
                self.phase = Phase::Reregistering { token };
            },
            Ok(ReadStep::Message(message)) => {
                let recipients = self.conns.tokens();
                proof {
                    crate::slots::lemma_live_below(self@.slots.conns, self@.slots.capacity as nat);
                }
                self.broadcast(token, Rc::new(message), recipients, 0);
            },
        }
    }

    /// Goes on with a broadcast after the write to the recipient at `next`.
    fn relay(
        &mut self,
        origin: usize,
        message: Rc<Vec<u8>>,
        recipients: Vec<usize>,
        next: usize,
        outcome: WriteOutcome,
    )
        requires
            old(self)@.table_wf(),
            old(self)@.live(origin),
            next < recipients@.len(),
            rising(recipients@),
            forall|i: int| 0 <= i < recipients@.len() ==> old(self)@.live(#[trigger] recipients@[i]),
            old(self)@.conn(recipients@[next as int]).queue.len() > 0,
        ensures
            final(self)@ == old(self)@.relayed(
                origin,
                message@,
                recipients@,
                next as nat,
                outcome,
            ),
            final(self).wf(),
    {
        let count = recipients.len();
        let token = recipients[next];
        let connection = self.conns.get_mut(token);
        match connection.writable(outcome) {
            Err(e) => {
                assert(self@.slots.conns =~= old(self)@.slots.conns);
                self.remove_token(origin, false, Cause::Connection(e));
            },
            Ok(WriteStep::More) => {
                self.phase = Phase::Broadcasting { origin, message, recipients, next };
            },
            Ok(WriteStep::Done) => {
                assert(next < count);
                self.broadcast(origin, message, recipients, next + 1);
            },
        }
    }

    /// Takes the outcome of the call that was pending and returns the next
    /// call to make.
    pub fn run(&mut self, event: Event) -> (action: Action)
        requires
            old(self).wf(),
            old(self)@.admits(event),
        ensures
            final(self).wf(),
            final(self)@ == old(self)@.step(event),
            action@ == final(self)@.pending(),
    {
        let mut phase = Phase::Idle;
        std::mem::swap(&mut self.phase, &mut phase);
        match phase {
            Phase::Idle => match event {
                Event::Ready { key, readiness } => {
                    match self.addressee(key) {
                        Some(token) => self.ready(token, readiness),
                        None => {},
                    }
                },
                _ => {},
            },
            Phase::Writing { token, readable } => match event {
                Event::Wrote(outcome) => self.writable(token, readable, outcome),
                _ => {
                    self.phase = Phase::Writing { token, readable };
                },
            },
            Phase::Accepting => match event {
                Event::Accepted => self.accept(),
                Event::NoSocket => {},
                _ => {
                    self.phase = Phase::Accepting;
                },
            },
            Phase::Registering { token } => match event {
                Event::Registered(ok) => {
                    if ok {
                        self.phase = Phase::Accepting;
                    } else {
                        self.remove_token(token, true, Cause::RegistrationFailure);
                    }
                },
                _ => {
                    self.phase = Phase::Registering { token };
                },
            },
            Phase::Reading { token } => match event {
                Event::Read(outcome) => {
                    proof {
                        let before = old(self)@;
                        let after = before.with_conn(token, before.conn(token).read_next(outcome));
                        if let Ok(ReadStep::Message(message)) = before.conn(token).read_result(
                            outcome,
                        ) {
                            lemma_deliver_any_phase(
                                after,
                                PhaseView::Idle,
                                token,
                                message@,
                                after.slots.live(),
                                0,
                            );
                        }
                    }
                    self.readable(token, outcome)
                },
                _ => {
                    self.phase = Phase::Reading { token };
                },
            },
            Phase::Broadcasting { origin, message, recipients, next } => match event {
                Event::Wrote(outcome) => {
                    proof {
                        let before = old(self)@;
                        let at = recipients@[next as int];
                        let after = before.with_conn(at, before.conn(at).write_next(outcome));
                        lemma_deliver_any_phase(
                            after,
                            PhaseView::Idle,
                            origin,
                            message@,
                            recipients@,
                            (next + 1) as nat,
                        );
                    }
                    self.relay(origin, message, recipients, next, outcome)
                },
                _ => {
                    self.phase = Phase::Broadcasting { origin, message, recipients, next };
                },
            },
            Phase::Reregistering { token } => match event {
                Event::Registered(ok) => {
                    if !ok {
                        self.remove_token(token, false, Cause::ReregistrationFailure);
                    }
                },
                _ => {
                    self.phase = Phase::Reregistering { token };
                },
            },
            Phase::Closing { token, accepting, cause } => match event {
                Event::Closed => {
                    if accepting {
                        self.phase = Phase::Accepting;
                    }
                },
                _ => {
                    self.phase = Phase::Closing { token, accepting, cause };
                },
            },
            Phase::Refusing => match event {
                Event::Closed => {},
                _ => {
                    self.phase = Phase::Refusing;
                },
            },
        }
        self.pending()
    }
}

} // verus!
