//! One connection: its read and write continuations and its outbound queue.
//!
//! A connection never touches its socket. The caller makes each socket call
//! and reports how it ended; the connection answers with its next state and
//! says whether another call is due.

use crate::codec::{be_value, decode_length, encode_length, frame, length_prefix};
use crate::error::ConnectionError;
use crate::interest::{Interest, Registration};
use std::collections::VecDeque;
use std::rc::Rc;
use vstd::prelude::*;
use vstd::slice::{slice_subrange, slice_to_vec};

verus! {

/// How far the read side has come with the message in progress.
#[derive(Clone, Copy, Debug, PartialEq, Eq, Structural)]
pub enum ReadState {
    /// No byte of a pending message has been taken yet.
    AwaitingLength,
    /// The length prefix has been taken; this many payload bytes are due.
    AwaitingPayload(u64),
}

/// How far the write side has come with the frame at the head of the queue.
#[derive(Clone, Copy, Debug, PartialEq, Eq, Structural)]
pub enum WriteState {
    /// Nothing of the head frame has been sent.
    Idle,
    /// The length prefix of the head frame has been sent; what is queued at
    /// the head is the payload still owed.
    MidPayload,
}

/// How one read on the socket ended.
#[derive(Debug, PartialEq, Eq)]
pub enum ReadOutcome {
    /// The bytes that the read delivered.
    Data(Vec<u8>),
    /// The read would have blocked.
    WouldBlock,
    /// The read failed otherwise.
    Failed,
}

/// How one write on the socket ended.
#[derive(Clone, Copy, Debug, PartialEq, Eq, Structural)]
pub enum WriteOutcome {
    /// The number of bytes that the socket took.
    Wrote(usize),
    /// The write would have blocked.
    WouldBlock,
    /// The write failed otherwise.
    Failed,
}

/// What the read side has to say after a read.
#[derive(Debug, PartialEq, Eq)]
pub enum ReadStep {
    /// No message is complete; nothing more to read for now.
    NoMessage,
    /// A length prefix was taken; the payload is to be read at once.
    More,
    /// A message is complete.
    Message(Vec<u8>),
}

/// What the write side has to say after a write.
#[derive(Clone, Copy, Debug, PartialEq, Eq, Structural)]
pub enum WriteStep {
    /// The length prefix went out; the payload is to be written at once.
    More,
    /// Nothing more to write for this event.
    Done,
}

/// The mathematical content of a connection.
pub struct ConnectionView {
    pub token: usize,
    pub interest: Interest,
    pub queue: Seq<Seq<u8>>,
    pub read_state: ReadState,
    pub write_state: WriteState,
}

/// The bytes that a queue of whole frames puts on the wire.
pub open spec fn frames_wire(queue: Seq<Seq<u8>>) -> Seq<u8>
    decreases queue.len(),
{
    if queue.len() == 0 {
        Seq::empty()
    } else {
        frame(queue[0]) + frames_wire(queue.drop_first())
    }
}

impl ConnectionView {
    /// A connection as it is when its socket has just been accepted.
    pub open spec fn fresh(token: usize) -> ConnectionView {
        ConnectionView {
            token,
            interest: Interest::spec_hup(),
            queue: Seq::empty(),
            read_state: ReadState::AwaitingLength,
            write_state: WriteState::Idle,
        }
    }

    /// Writable interest is held exactly while something is queued, and a
    /// payload can only be in progress while something is queued.
    pub open spec fn wf(self) -> bool {
        &&& self.interest.writable <==> self.queue.len() > 0
        &&& self.write_state == WriteState::MidPayload ==> self.queue.len() > 0
    }

    /// The number of bytes that the next read asks for.
    pub open spec fn read_want(self) -> u64 {
        match self.read_state {
            ReadState::AwaitingLength => 8,
            ReadState::AwaitingPayload(len) => len,
        }
    }

    /// The state after a read that ended with `outcome`.
    pub open spec fn read_next(self, outcome: ReadOutcome) -> ConnectionView {
        match (self.read_state, outcome) {
            (ReadState::AwaitingLength, ReadOutcome::Data(bytes)) => {
                if bytes@.len() == 8 && be_value(bytes@) != 0 {
                    ConnectionView {
                        read_state: ReadState::AwaitingPayload(be_value(bytes@) as u64),
                        ..self
                    }
                } else {
                    self
                }
            },
            (ReadState::AwaitingPayload(len), ReadOutcome::Data(bytes)) => {
                if bytes@.len() == len {
                    ConnectionView { read_state: ReadState::AwaitingLength, ..self }
                } else {
                    self
                }
            },
            _ => self,
        }
    }

    /// What a read that ended with `outcome` yields.
    pub open spec fn read_result(self, outcome: ReadOutcome) -> Result<ReadStep, ConnectionError> {
        match (self.read_state, outcome) {
            (_, ReadOutcome::WouldBlock) => Ok(ReadStep::NoMessage),
            (_, ReadOutcome::Failed) => Err(ConnectionError::FatalIO),
            (ReadState::AwaitingLength, ReadOutcome::Data(bytes)) => {
                if bytes@.len() != 8 {
                    Err(ConnectionError::ProtocolViolation)
                } else if be_value(bytes@) == 0 {
                    Ok(ReadStep::NoMessage)
                } else {
                    Ok(ReadStep::More)
                }
            },
            (ReadState::AwaitingPayload(len), ReadOutcome::Data(bytes)) => {
                if bytes@.len() != len {
                    Err(ConnectionError::ProtocolViolation)
                } else {
                    Ok(ReadStep::Message(bytes))
                }
            },
        }
    }

    /// The bytes that the next write hands to the socket: the length prefix
    /// of the head frame, or what is left of its payload.
    pub open spec fn write_want(self) -> Option<Seq<u8>> {
        if self.queue.len() == 0 {
            None
        } else {
            match self.write_state {
                WriteState::Idle => Some(length_prefix(self.queue[0].len())),
                WriteState::MidPayload => Some(self.queue[0]),
            }
        }
    }

    /// The state after a write that ended with `outcome`.
    pub open spec fn write_next(self, outcome: WriteOutcome) -> ConnectionView {
        if self.queue.len() == 0 {
            self
        } else {
            match (self.write_state, outcome) {
                (WriteState::Idle, WriteOutcome::Wrote(n)) => {
                    if n >= 8 {
                        ConnectionView { write_state: WriteState::MidPayload, ..self }
                    } else {
                        self
                    }
                },
                (WriteState::MidPayload, WriteOutcome::Wrote(n)) => {
                    if n >= self.queue[0].len() {
                        ConnectionView {
                            queue: self.queue.drop_first(),
                            write_state: WriteState::Idle,
                            interest: Interest { writable: self.queue.len() > 1, ..self.interest },
                            ..self
                        }
                    } else {
                        ConnectionView {
                            queue: self.queue.update(
                                0,
                                self.queue[0].subrange(n as int, self.queue[0].len() as int),
                            ),
                            ..self
                        }
                    }
                },
                _ => self,
            }
        }
    }

    /// What a write that ended with `outcome` yields.
    pub open spec fn write_result(self, outcome: WriteOutcome) -> Result<WriteStep, ConnectionError> {
        if self.queue.len() == 0 {
            Err(ConnectionError::Other)
        } else {
            match (self.write_state, outcome) {
                (_, WriteOutcome::Failed) => Err(ConnectionError::FatalIO),
                (_, WriteOutcome::WouldBlock) => Ok(WriteStep::Done),
                (WriteState::Idle, WriteOutcome::Wrote(n)) => {
                    if n >= 8 {
                        Ok(WriteStep::More)
                    } else {
                        Err(ConnectionError::ProtocolViolation)
                    }
                },
                (WriteState::MidPayload, WriteOutcome::Wrote(_)) => Ok(WriteStep::Done),
            }
        }
    }

    /// The state after `frame` has been queued for sending.
    pub open spec fn enqueue(self, frame: Seq<u8>) -> ConnectionView {
        ConnectionView {
            queue: self.queue.push(frame),
            interest: Interest { writable: true, ..self.interest },
            ..self
        }
    }

    /// The state after the connection has asked to be watched for reads.
    pub open spec fn registered(self) -> ConnectionView {
        ConnectionView { interest: Interest { readable: true, ..self.interest }, ..self }
    }

    /// How the connection is handed to the poller. On its own it goes by
    /// its token.
    pub open spec fn registration(self) -> Registration {
        Registration {
            token: self.token,
            key: self.token,
            interest: self.interest,
            edge: true,
            oneshot: true,
        }
    }

    /// Every byte that the queue still owes to the socket, in order.
    pub open spec fn wire(self) -> Seq<u8> {
        if self.queue.len() == 0 {
            Seq::empty()
        } else {
            match self.write_state {
                WriteState::Idle => frames_wire(self.queue),
                WriteState::MidPayload => self.queue[0] + frames_wire(self.queue.drop_first()),
            }
        }
    }
}

/// The protocol state of one accepted socket.
pub struct Connection {
    token: usize,
    interest: Interest,
    send_queue: VecDeque<Rc<Vec<u8>>>,
    read_state: ReadState,
    write_state: WriteState,
}

impl View for Connection {
    type V = ConnectionView;

    closed spec fn view(&self) -> ConnectionView {
        ConnectionView {
            token: self.token,
            interest: self.interest,
            queue: self.send_queue@.map_values(|f: Rc<Vec<u8>>| f@),
            read_state: self.read_state,
            write_state: self.write_state,
        }
    }
}

impl Connection {
    /// The invariant of a connection.
    pub open spec fn wf(&self) -> bool {
        self@.wf()
    }

    /// A connection for the socket that `token` stands for: watched for
    /// hangup, nothing queued, no message in progress either way.
    pub fn new(token: usize) -> (connection: Connection)
        ensures
            connection@ == ConnectionView::fresh(token),
            connection.wf(),
    {
        let connection = Connection {
            token,
            interest: Interest::hup(),
            send_queue: VecDeque::with_capacity(32),
            read_state: ReadState::AwaitingLength,
            write_state: WriteState::Idle,
        };
        assert(connection@.queue =~= Seq::empty());
        connection
    }

    /// The slot that the connection lives in.
    pub fn token(&self) -> (token: usize)
        ensures
            token == self@.token,
    {
        self.token
    }

    /// What the socket is to be watched for.
    pub fn interest(&self) -> (interest: Interest)
        ensures
            interest == self@.interest,
    {
        self.interest
    }

    /// The read continuation.
    pub fn read_state(&self) -> (state: ReadState)
        ensures
            state == self@.read_state,
    {
        self.read_state
    }

    /// The write continuation.
    pub fn write_state(&self) -> (state: WriteState)
        ensures
            state == self@.write_state,
    {
        self.write_state
    }

    /// The number of frames that wait to be sent.
    pub fn queued(&self) -> (n: usize)
        ensures
            n == self@.queue.len(),
    {
        self.send_queue.len()
    }

    /// Adds readable to the interest and returns the registration to make
    /// with the poller.
    pub fn register(&mut self) -> (registration: Registration)
        ensures
            final(self)@ == old(self)@.registered(),
            registration == final(self)@.registration(),
            old(self).wf() ==> final(self).wf(),
    {
        self.interest.readable = true;
        Registration {
            token: self.token,
            key: self.token,
            interest: self.interest,
            edge: true,
            oneshot: true,
        }
    }

    /// The registration that rearms the socket with the present interest.
    pub fn reregister(&self) -> (registration: Registration)
        ensures
            registration == self@.registration(),
    {
        Registration {
            token: self.token,
            key: self.token,
            interest: self.interest,
            edge: true,
            oneshot: true,
        }
    }

    /// The number of bytes to ask the socket for in the next read.
    pub fn read_want(&self) -> (n: u64)
        ensures
            n == self@.read_want(),
    {
        match self.read_state {
            ReadState::AwaitingLength => 8,
            ReadState::AwaitingPayload(len) => len,
        }
    }

    /// Takes the outcome of the read of a length prefix.
    fn read_message_length(&mut self, outcome: ReadOutcome) -> (r: Result<ReadStep, ConnectionError>)
        requires
            old(self)@.read_state == ReadState::AwaitingLength,
        ensures
            final(self)@ == old(self)@.read_next(outcome),
            r == old(self)@.read_result(outcome),
    {
        match outcome {
            ReadOutcome::WouldBlock => Ok(ReadStep::NoMessage),
            ReadOutcome::Failed => Err(ConnectionError::FatalIO),
            ReadOutcome::Data(bytes) => {
                let len = decode_length(bytes.as_slice())?;
                if len == 0 {
                    Ok(ReadStep::NoMessage)
                } else {
                    self.read_state = ReadState::AwaitingPayload(len);
                    Ok(ReadStep::More)
                }
            },
        }
    }

    /// Takes the outcome of one read on the socket.
    ///
    /// While no length is known the read was for the eight bytes of a length
    /// prefix: a would-block leaves everything as it is, anything but eight
    /// bytes is a protocol violation, a length of zero is no message, and
    /// any other length is remembered and its payload is to be read at once.
    /// With a length known the read was for the payload: a would-block keeps
    /// the length for the next event, the full payload is the message, and
    /// anything else is a protocol violation.
    pub fn readable(&mut self, outcome: ReadOutcome) -> (r: Result<ReadStep, ConnectionError>)
        ensures
            final(self)@ == old(self)@.read_next(outcome),
            r == old(self)@.read_result(outcome),
            old(self).wf() ==> final(self).wf(),
    {
        match self.read_state {
            ReadState::AwaitingLength => self.read_message_length(outcome),
            ReadState::AwaitingPayload(len) => {
                match outcome {
                    ReadOutcome::WouldBlock => Ok(ReadStep::NoMessage),
                    ReadOutcome::Failed => Err(ConnectionError::FatalIO),
                    ReadOutcome::Data(bytes) => {
                        if bytes.len() as u64 != len {
                            Err(ConnectionError::ProtocolViolation)
                        } else {
                            self.read_state = ReadState::AwaitingLength;
                            Ok(ReadStep::Message(bytes))
                        }
                    },
                }
            },
        }
    }
    /// The bytes to hand to the socket in the next write, if anything is
    /// queued: the length prefix of the head frame while nothing of it has
    /// gone out, else the payload that is left of it.
    pub fn write_want(&self) -> (bytes: Option<Rc<Vec<u8>>>)
        ensures
            bytes.is_some() == self@.write_want().is_some(),
            bytes.is_some() ==> bytes.unwrap()@ == self@.write_want().unwrap(),
    {
        if self.send_queue.len() == 0 {
            return None;
        }
        let head = &self.send_queue[0];
        match self.write_state {
            WriteState::Idle => Some(Rc::new(encode_length(head.len() as u64))),
            WriteState::MidPayload => Some(share(head)),
        }
    }

    /// Takes the outcome of the write of a length prefix.
    fn write_message_length(&mut self, outcome: WriteOutcome) -> (r: Result<WriteStep, ConnectionError>)
        requires
            old(self)@.queue.len() > 0,
            old(self)@.write_state == WriteState::Idle,
        ensures
            final(self)@ == old(self)@.write_next(outcome),
            r == old(self)@.write_result(outcome),
    {
        match outcome {
            WriteOutcome::Wrote(n) => {
                if n < 8 {
                    Err(ConnectionError::ProtocolViolation)
                } else {
                    self.write_state = WriteState::MidPayload;
                    Ok(WriteStep::More)
                }
            },
            WriteOutcome::WouldBlock => Ok(WriteStep::Done),
            WriteOutcome::Failed => Err(ConnectionError::FatalIO),
        }
    }

    /// Takes the outcome of one write of the head frame.
    fn write_message(&mut self, outcome: WriteOutcome) -> (r: Result<WriteStep, ConnectionError>)
        requires
            old(self)@.queue.len() > 0,
        ensures
            final(self)@ == old(self)@.write_next(outcome),
            r == old(self)@.write_result(outcome),
    {
        match self.write_state {
            WriteState::Idle => self.write_message_length(outcome),
            WriteState::MidPayload => {
                match outcome {
                    WriteOutcome::Wrote(n) => {
                        let ghost before = self.send_queue@;
                        let head = self.send_queue.pop_front().unwrap();
                        let len = head.len();
                        if n < len {
                            let rest = slice_to_vec(slice_subrange(head.as_slice(), n, len));
                            self.send_queue.push_front(Rc::new(rest));
                            assert(self@.queue =~= old(self)@.queue.update(
                                0,
                                old(self)@.queue[0].subrange(n as int, len as int),
                            ));
                        } else {
                            self.write_state = WriteState::Idle;
                            self.interest.writable = self.send_queue.len() > 0;
                            assert(self@.queue =~= old(self)@.queue.drop_first());
                        }
                        Ok(WriteStep::Done)
                    },
                    WriteOutcome::WouldBlock => Ok(WriteStep::Done),
                    WriteOutcome::Failed => Err(ConnectionError::FatalIO),
                }
            },
        }
    }

    /// Takes the outcome of one write on the socket.
    ///
    /// With nothing queued there was nothing to write, which is an error.
    /// While the head frame has not begun, the write was for its length
    /// prefix: all eight bytes carry on to the payload, fewer is a protocol
    /// violation, and a would-block leaves the frame at the head. After
    /// that the write was for the payload: what the socket did not take
    /// stays at the head, ahead of every other frame. Writable interest is
    /// dropped as soon as the queue runs empty.
    pub fn writable(&mut self, outcome: WriteOutcome) -> (r: Result<WriteStep, ConnectionError>)
        ensures
            final(self)@ == old(self)@.write_next(outcome),
            r == old(self)@.write_result(outcome),
            old(self).wf() ==> final(self).wf(),
    {
        if self.send_queue.len() == 0 {
            return Err(ConnectionError::Other);
        }
        self.write_message(outcome)
    }

    /// Queues a frame behind everything that is already queued and asks for
    /// writable interest. Returns whether the queue was empty, in which case
    /// the frame is to be written at once, its outcomes reported through
    /// `writable`.
    pub fn send_message(&mut self, message: Rc<Vec<u8>>) -> (now: bool)
        ensures
            final(self)@ == old(self)@.enqueue(message@),
            now == (old(self)@.queue.len() == 0),
            old(self).wf() ==> final(self).wf(),
    {
        let now = self.send_queue.len() == 0;
        self.send_queue.push_back(message);
        self.interest.writable = true;
        assert(self@.queue =~= old(self)@.queue.push(message@));
        now
    }
}

/// Calls `Rc::clone`: the new pointer shares the allocation of the old one,
/// so both hold the same bytes.
#[verifier::external_body]
pub(crate) fn share(bytes: &Rc<Vec<u8>>) -> (shared: Rc<Vec<u8>>)
    ensures
        shared == *bytes,
{
    Rc::clone(bytes)
}

} // verus!
