use mob::codec::encode_length;
use mob::connection::{ReadOutcome, ReadState, WriteOutcome, WriteState};
use mob::error::{Cause, ConnectionError};
use mob::interest::{Interest, Registration};
use mob::server::{Action, Event, Server, DEFAULT_SLOTS, KEY_SPAN, SERVER_TOKEN};
use std::rc::Rc;

const READABLE: Interest = Interest { readable: true, writable: false, hup: false, error: false };
const WRITABLE: Interest = Interest { readable: false, writable: true, hup: false, error: false };
const HANGUP: Interest = Interest { readable: false, writable: false, hup: true, error: false };
const FAILURE: Interest = Interest { readable: false, writable: false, hup: false, error: true };
const READS: Interest = Interest { readable: true, writable: false, hup: true, error: false };
const READS_AND_WRITES: Interest =
    Interest { readable: true, writable: true, hup: true, error: false };

fn ready(key: usize, readiness: Interest) -> Event {
    Event::Ready { key, readiness }
}

fn write(token: usize, bytes: &[u8]) -> Action {
    Action::Write { token, bytes: Rc::new(bytes.to_vec()) }
}

fn close(token: usize, cause: Cause) -> Action {
    Action::Close { token, cause }
}

fn registration(token: usize, interest: Interest) -> Registration {
    Registration { token, key: token, interest, edge: true, oneshot: true }
}

/// Accepts `count` sockets on a server that is between events.
fn accept(server: &mut Server, count: usize) -> Vec<usize> {
    let mut tokens = Vec::new();
    assert_eq!(server.run(ready(SERVER_TOKEN, READABLE)), Action::Accept);
    for _ in 0..count {
        match server.run(Event::Accepted) {
            Action::Register(registration) => {
                assert_eq!(registration.interest, READS);
                assert!(registration.edge && registration.oneshot);
                tokens.push(registration.token);
            }
            other => panic!("no slot: {:?}", other),
        }
        assert_eq!(server.run(Event::Registered(true)), Action::Accept);
    }
    assert_eq!(server.run(Event::NoSocket), Action::Poll);
    tokens
}

/// Reads the frame `payload` from `token`, up to the start of the broadcast.
fn receive(server: &mut Server, token: usize, payload: &[u8]) -> Action {
    assert_eq!(server.run(ready(token, READABLE)), Action::Read { token, limit: 8 });
    assert_eq!(
        server.run(Event::Read(ReadOutcome::Data(encode_length(payload.len() as u64)))),
        Action::Read { token, limit: payload.len() as u64 }
    );
    server.run(Event::Read(ReadOutcome::Data(payload.to_vec())))
}

#[test]
fn a_new_server_waits_for_events() {
    let server = Server::new();
    assert_eq!(server.pending(), Action::Poll);
    assert_eq!(server.token(), 10_000_000);
    assert_eq!(server.capacity(), 128);
    assert_eq!(DEFAULT_SLOTS, 128);
    assert_eq!(server.tokens(), Vec::<usize>::new());
    assert_eq!(
        server.register(),
        Registration {
            token: SERVER_TOKEN,
            key: SERVER_TOKEN,
            interest: READABLE,
            edge: true,
            oneshot: false
        }
    );
}

#[test]
fn accepting_hands_out_tokens_in_rising_order() {
    let mut server = Server::new();
    assert_eq!(accept(&mut server, 3), vec![0, 1, 2]);
    assert_eq!(server.tokens(), vec![0, 1, 2]);
    assert!(server.contains(1));
    assert!(!server.contains(3));
    let connection = server.connection(1);
    assert_eq!(connection.token(), 1);
    assert_eq!(connection.interest(), READS);
    assert_eq!(connection.queued(), 0);
}

#[test]
fn a_frame_reaches_every_connection_the_sender_included() {
    let mut server = Server::new();
    accept(&mut server, 2);
    // both queues are empty, so each recipient is written to at once
    assert_eq!(receive(&mut server, 0, b"hello"), write(0, &[0, 0, 0, 0, 0, 0, 0, 5]));
    assert_eq!(server.run(Event::Wrote(WriteOutcome::Wrote(8))), write(0, b"hello"));
    assert_eq!(
        server.run(Event::Wrote(WriteOutcome::Wrote(5))),
        write(1, &[0, 0, 0, 0, 0, 0, 0, 5])
    );
    assert_eq!(server.run(Event::Wrote(WriteOutcome::Wrote(8))), write(1, b"hello"));
    // then reading from the sender goes on
    assert_eq!(
        server.run(Event::Wrote(WriteOutcome::Wrote(5))),
        Action::Read { token: 0, limit: 8 }
    );
    assert_eq!(
        server.run(Event::Read(ReadOutcome::WouldBlock)),
        Action::Reregister(registration(0, READS))
    );
    assert_eq!(server.run(Event::Registered(true)), Action::Poll);
    assert_eq!(server.connection(0).queued(), 0);
    assert_eq!(server.connection(1).queued(), 0);
}

#[test]
fn frames_that_cannot_go_out_at_once_wait_for_writable_events() {
    let mut server = Server::new();
    accept(&mut server, 2);
    assert_eq!(receive(&mut server, 0, b"hello"), write(0, &encode_length(5)));
    assert_eq!(
        server.run(Event::Wrote(WriteOutcome::WouldBlock)),
        write(1, &encode_length(5))
    );
    assert_eq!(
        server.run(Event::Wrote(WriteOutcome::WouldBlock)),
        Action::Read { token: 0, limit: 8 }
    );
    assert_eq!(
        server.run(Event::Read(ReadOutcome::WouldBlock)),
        Action::Reregister(registration(0, READS_AND_WRITES))
    );
    assert_eq!(server.run(Event::Registered(true)), Action::Poll);
    assert_eq!(server.connection(0).queued(), 1);
    assert_eq!(server.connection(1).queued(), 1);
    assert!(server.connection(1).interest().writable);

    // the next writable event of each connection delivers the frame
    for token in 0..2 {
        assert_eq!(server.run(ready(token, WRITABLE)), write(token, &encode_length(5)));
        assert_eq!(server.run(Event::Wrote(WriteOutcome::Wrote(8))), write(token, b"hello"));
        assert_eq!(
            server.run(Event::Wrote(WriteOutcome::Wrote(5))),
            Action::Reregister(registration(token, READS))
        );
        assert_eq!(server.run(Event::Registered(true)), Action::Poll);
        assert_eq!(server.connection(token).queued(), 0);
    }
}

#[test]
fn a_recipient_with_a_backlog_gets_the_frame_behind_it() {
    let mut server = Server::new();
    accept(&mut server, 2);
    assert_eq!(receive(&mut server, 0, b"one"), write(0, &encode_length(3)));
    server.run(Event::Wrote(WriteOutcome::WouldBlock));
    server.run(Event::Wrote(WriteOutcome::WouldBlock));
    // both queues hold "one"; the second frame is queued without a write
    assert_eq!(
        server.run(Event::Read(ReadOutcome::Data(encode_length(3)))),
        Action::Read { token: 0, limit: 3 }
    );
    assert_eq!(
        server.run(Event::Read(ReadOutcome::Data(b"two".to_vec()))),
        Action::Read { token: 0, limit: 8 }
    );
    assert_eq!(server.connection(0).queued(), 2);
    assert_eq!(server.connection(1).queued(), 2);
}

#[test]
fn a_hangup_in_the_middle_of_a_frame_removes_the_connection() {
    let mut server = Server::new();
    accept(&mut server, 2);
    assert_eq!(server.run(ready(0, READABLE)), Action::Read { token: 0, limit: 8 });
    assert_eq!(
        server.run(Event::Read(ReadOutcome::Data(encode_length(100)))),
        Action::Read { token: 0, limit: 100 }
    );
    assert_eq!(
        server.run(Event::Read(ReadOutcome::WouldBlock)),
        Action::Reregister(registration(0, READS))
    );
    assert_eq!(server.run(Event::Registered(true)), Action::Poll);
    assert_eq!(server.connection(0).read_state(), ReadState::AwaitingPayload(100));

    assert_eq!(server.run(ready(0, HANGUP)), close(0, Cause::Hangup));
    assert!(!server.contains(0));
    assert_eq!(server.run(Event::Closed), Action::Poll);
    assert_eq!(server.tokens(), vec![1]);
    assert_eq!(server.connection(1).queued(), 0);
}

#[test]
fn an_error_event_removes_the_connection() {
    let mut server = Server::new();
    accept(&mut server, 1);
    let both = Interest { readable: true, writable: true, hup: false, error: true };
    assert_eq!(server.run(ready(0, both)), close(0, Cause::Error));
    assert_eq!(server.run(Event::Closed), Action::Poll);
    assert!(!server.contains(0));
}

#[test]
fn an_error_event_on_the_listening_token_removes_nothing() {
    let mut server = Server::new();
    accept(&mut server, 1);
    assert_eq!(server.run(ready(SERVER_TOKEN, FAILURE)), Action::Poll);
    assert_eq!(server.tokens(), vec![0]);
}

#[test]
fn an_event_for_an_unknown_token_is_passed_over() {
    let mut server = Server::new();
    accept(&mut server, 1);
    assert_eq!(server.run(ready(5, READABLE)), Action::Poll);
    assert_eq!(server.run(ready(5, HANGUP)), Action::Poll);
    assert_eq!(server.tokens(), vec![0]);
}

#[test]
fn a_full_table_refuses_the_socket_and_accepts_again_once_a_slot_is_free() {
    let mut server = Server::with_capacity(2);
    assert_eq!(accept(&mut server, 2), vec![0, 1]);
    assert_eq!(server.run(ready(SERVER_TOKEN, READABLE)), Action::Accept);
    assert_eq!(server.run(Event::Accepted), Action::Refuse);
    assert_eq!(server.run(Event::Closed), Action::Poll);
    assert_eq!(server.tokens(), vec![0, 1]);

    assert_eq!(server.run(ready(0, HANGUP)), close(0, Cause::Hangup));
    assert_eq!(server.run(Event::Closed), Action::Poll);
    assert_eq!(accept(&mut server, 1), vec![0]);
    assert_eq!(server.tokens(), vec![0, 1]);
}

#[test]
fn the_default_table_holds_128_connections() {
    let mut server = Server::new();
    let tokens = accept(&mut server, 128);
    assert_eq!(tokens, (0..128).collect::<Vec<usize>>());
    assert_eq!(server.run(ready(SERVER_TOKEN, READABLE)), Action::Accept);
    assert_eq!(server.run(Event::Accepted), Action::Refuse);
}

#[test]
fn a_reused_token_starts_with_nothing_queued() {
    let mut server = Server::new();
    accept(&mut server, 3);
    // leave a frame queued at every connection
    assert_eq!(receive(&mut server, 0, b"stale"), write(0, &encode_length(5)));
    server.run(Event::Wrote(WriteOutcome::WouldBlock));
    server.run(Event::Wrote(WriteOutcome::WouldBlock));
    server.run(Event::Wrote(WriteOutcome::WouldBlock));
    server.run(Event::Read(ReadOutcome::WouldBlock));
    assert_eq!(server.run(Event::Registered(true)), Action::Poll);
    assert_eq!(server.connection(1).queued(), 1);

    assert_eq!(server.run(ready(1, HANGUP)), close(1, Cause::Hangup));
    assert_eq!(server.run(Event::Closed), Action::Poll);
    assert_eq!(accept(&mut server, 1), vec![1]);
    let connection = server.connection(1);
    assert_eq!(connection.queued(), 0);
    assert_eq!(connection.read_state(), ReadState::AwaitingLength);
    assert_eq!(connection.write_state(), WriteState::Idle);
    assert!(connection.write_want().is_none());
    assert_eq!(server.connection(0).queued(), 1);
    assert_eq!(server.connection(2).queued(), 1);
}

#[test]
fn the_slot_freed_last_is_handed_out_first() {
    let mut server = Server::new();
    accept(&mut server, 4);
    for token in [2, 0] {
        assert_eq!(server.run(ready(token, HANGUP)), close(token, Cause::Hangup));
        assert_eq!(server.run(Event::Closed), Action::Poll);
    }
    assert_eq!(accept(&mut server, 3), vec![0, 2, 4]);
}

#[test]
fn a_writable_event_with_nothing_queued_removes_the_connection() {
    let mut server = Server::new();
    accept(&mut server, 1);
    assert_eq!(
        server.run(ready(0, WRITABLE)),
        close(0, Cause::Connection(ConnectionError::Other))
    );
    assert_eq!(server.run(Event::Closed), Action::Poll);
}

#[test]
fn a_failed_write_removes_the_connection() {
    let mut server = Server::new();
    accept(&mut server, 2);
    receive(&mut server, 1, b"abc");
    server.run(Event::Wrote(WriteOutcome::WouldBlock));
    server.run(Event::Wrote(WriteOutcome::WouldBlock));
    server.run(Event::Read(ReadOutcome::WouldBlock));
    assert_eq!(server.run(Event::Registered(true)), Action::Poll);

    assert_eq!(server.run(ready(0, WRITABLE)), write(0, &encode_length(3)));
    assert_eq!(
        server.run(Event::Wrote(WriteOutcome::Failed)),
        close(0, Cause::Connection(ConnectionError::FatalIO))
    );
    assert_eq!(server.run(Event::Closed), Action::Poll);
    assert_eq!(server.tokens(), vec![1]);
}

#[test]
fn a_failed_write_during_a_broadcast_removes_the_sender() {
    let mut server = Server::new();
    accept(&mut server, 3);
    assert_eq!(receive(&mut server, 1, b"abc"), write(0, &encode_length(3)));
    assert_eq!(
        server.run(Event::Wrote(WriteOutcome::Failed)),
        close(1, Cause::Connection(ConnectionError::FatalIO))
    );
    assert_eq!(server.run(Event::Closed), Action::Poll);
    assert_eq!(server.tokens(), vec![0, 2]);
    // the recipient that failed keeps the frame, the one behind it never got it
    assert_eq!(server.connection(0).queued(), 1);
    assert_eq!(server.connection(2).queued(), 0);
}

#[test]
fn a_failed_read_removes_the_connection() {
    let mut server = Server::new();
    accept(&mut server, 1);
    assert_eq!(server.run(ready(0, READABLE)), Action::Read { token: 0, limit: 8 });
    assert_eq!(
        server.run(Event::Read(ReadOutcome::Data(vec![1, 2, 3]))),
        close(0, Cause::Connection(ConnectionError::ProtocolViolation))
    );
    assert_eq!(server.run(Event::Closed), Action::Poll);
    assert!(!server.contains(0));
}

#[test]
fn a_writable_and_readable_event_writes_first_then_reads() {
    let mut server = Server::new();
    accept(&mut server, 1);
    receive(&mut server, 0, b"abc");
    server.run(Event::Wrote(WriteOutcome::WouldBlock));
    server.run(Event::Read(ReadOutcome::WouldBlock));
    assert_eq!(server.run(Event::Registered(true)), Action::Poll);

    let both = Interest { readable: true, writable: true, hup: false, error: false };
    assert_eq!(server.run(ready(0, both)), write(0, &encode_length(3)));
    assert_eq!(server.run(Event::Wrote(WriteOutcome::Wrote(8))), write(0, b"abc"));
    assert_eq!(
        server.run(Event::Wrote(WriteOutcome::Wrote(3))),
        Action::Read { token: 0, limit: 8 }
    );
    assert_eq!(
        server.run(Event::Read(ReadOutcome::WouldBlock)),
        Action::Reregister(registration(0, READS))
    );
}

#[test]
fn an_event_with_nothing_to_serve_rearms_the_connection() {
    let mut server = Server::new();
    accept(&mut server, 1);
    assert_eq!(
        server.run(ready(0, Interest::empty())),
        Action::Reregister(registration(0, READS))
    );
    assert_eq!(server.run(Event::Registered(true)), Action::Poll);
    assert_eq!(server.run(ready(SERVER_TOKEN, Interest::empty())), Action::Poll);
}

#[test]
fn a_failed_reregistration_removes_the_connection() {
    let mut server = Server::new();
    accept(&mut server, 1);
    assert_eq!(server.run(ready(0, READABLE)), Action::Read { token: 0, limit: 8 });
    assert_eq!(
        server.run(Event::Read(ReadOutcome::WouldBlock)),
        Action::Reregister(registration(0, READS))
    );
    assert_eq!(
        server.run(Event::Registered(false)),
        close(0, Cause::ReregistrationFailure)
    );
    assert_eq!(server.run(Event::Closed), Action::Poll);
    assert!(!server.contains(0));
}

#[test]
fn a_failed_registration_removes_the_connection_and_accepting_goes_on() {
    let mut server = Server::new();
    assert_eq!(server.run(ready(SERVER_TOKEN, READABLE)), Action::Accept);
    assert_eq!(server.run(Event::Accepted), Action::Register(registration(0, READS)));
    assert_eq!(
        server.run(Event::Registered(false)),
        close(0, Cause::RegistrationFailure)
    );
    assert!(!server.contains(0));
    assert_eq!(server.run(Event::Closed), Action::Accept);
    let again = Registration { key: KEY_SPAN, ..registration(0, READS) };
    assert_eq!(server.run(Event::Accepted), Action::Register(again));
    assert_eq!(server.run(Event::Registered(true)), Action::Accept);
    assert_eq!(server.run(Event::NoSocket), Action::Poll);
    assert_eq!(server.tokens(), vec![0]);
}

#[test]
fn an_event_that_is_not_waited_for_changes_nothing() {
    let mut server = Server::new();
    accept(&mut server, 1);
    assert_eq!(server.run(Event::Closed), Action::Poll);
    assert_eq!(server.run(Event::Read(ReadOutcome::WouldBlock)), Action::Poll);
    assert_eq!(server.run(ready(0, READABLE)), Action::Read { token: 0, limit: 8 });
    assert_eq!(server.run(Event::Accepted), Action::Read { token: 0, limit: 8 });
    assert_eq!(server.run(ready(0, HANGUP)), Action::Read { token: 0, limit: 8 });
    assert_eq!(server.pending(), Action::Read { token: 0, limit: 8 });
    assert_eq!(server.tokens(), vec![0]);
}

#[test]
fn a_writable_event_for_the_listening_token_is_not_admitted() {
    let server = Server::new();
    assert!(!server.admits(&ready(SERVER_TOKEN, WRITABLE)));
    assert!(server.admits(&ready(SERVER_TOKEN, READABLE)));
    assert!(server.admits(&ready(0, WRITABLE)));
    let failed = Interest { readable: false, writable: true, hup: false, error: true };
    assert!(server.admits(&ready(SERVER_TOKEN, failed)));
    assert!(server.admits(&Event::Closed));
}

#[test]
fn a_length_of_zero_ends_the_reading() {
    let mut server = Server::new();
    accept(&mut server, 1);
    assert_eq!(server.run(ready(0, READABLE)), Action::Read { token: 0, limit: 8 });
    assert_eq!(
        server.run(Event::Read(ReadOutcome::Data(encode_length(0)))),
        Action::Reregister(registration(0, READS))
    );
    assert_eq!(server.connection(0).queued(), 0);
}

#[test]
fn a_token_that_is_handed_out_again_comes_under_the_next_generation() {
    let mut server = Server::new();
    accept(&mut server, 2);
    assert_eq!(server.generation(0), Some(0));
    assert_eq!(server.generation(1), Some(0));
    assert_eq!(server.generation(2), None);
    assert_eq!(server.generation(SERVER_TOKEN), None);

    assert_eq!(server.run(ready(1, HANGUP)), close(1, Cause::Hangup));
    assert_eq!(server.generation(1), None);
    assert_eq!(server.run(Event::Closed), Action::Poll);
    assert_eq!(accept(&mut server, 1), vec![1]);
    assert_eq!(server.generation(1), Some(1));
    assert_eq!(server.generation(0), Some(0));
}

#[test]
fn an_event_for_a_connection_that_has_left_is_passed_over() {
    let mut server = Server::new();
    accept(&mut server, 2);
    assert_eq!(server.key(1), 1);
    assert_eq!(server.addressee(1), Some(1));
    assert_eq!(server.run(ready(1, HANGUP)), close(1, Cause::Hangup));
    assert_eq!(server.run(Event::Closed), Action::Poll);

    // the slot is taken again, under the next key
    assert_eq!(server.run(ready(SERVER_TOKEN, READABLE)), Action::Accept);
    let expected = Registration {
        token: 1,
        key: 1 + KEY_SPAN,
        interest: READS,
        edge: true,
        oneshot: true,
    };
    assert_eq!(server.run(Event::Accepted), Action::Register(expected));
    assert_eq!(server.run(Event::Registered(true)), Action::Accept);
    assert_eq!(server.run(Event::NoSocket), Action::Poll);
    assert_eq!(server.key(1), 1 + KEY_SPAN);

    // an event that was meant for the connection before it changes nothing
    assert_eq!(server.addressee(1), None);
    assert_eq!(server.run(ready(1, READABLE)), Action::Poll);
    assert_eq!(server.run(ready(1, HANGUP)), Action::Poll);
    assert!(server.contains(1));

    // an event under the present key is served
    assert_eq!(server.addressee(1 + KEY_SPAN), Some(1));
    assert_eq!(
        server.run(ready(1 + KEY_SPAN, READABLE)),
        Action::Read { token: 1, limit: 8 }
    );
    assert_eq!(
        server.run(Event::Read(ReadOutcome::WouldBlock)),
        Action::Reregister(expected)
    );
    assert_eq!(server.addressee(SERVER_TOKEN), Some(SERVER_TOKEN));
    assert_eq!(server.addressee(5 + 3 * KEY_SPAN), None);
}
