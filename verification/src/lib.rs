//! A readiness-driven relay of length-prefixed frames, and a few small
//! utilities beside it.
//!
//! The relay is the protocol side of a single-threaded server: the frame
//! codec, the read and write continuations of each connection, and the
//! reactor that dispatches readiness events over a slot table of live
//! connections. Sockets and the poller stay with the caller: every
//! operation here takes the outcome of one socket call and answers with its
//! next state and the next call to make.
//!
//! - [`codec`]: the wire format.
//! - [`connection`]: one connection, and [`continuation`]: what holds of it
//!   over many reads and writes.
//! - [`slots`]: the table of live connections.
//! - [`server`]: the reactor, and [`relay`]: what holds of it across events.
//!
//! The utilities: [`accumulate`], [`affine_cipher`], [`cache_padded`],
//! [`date`], [`json`], [`keys`], [`raft`] and [`response`].

pub mod accumulate;
pub mod affine_cipher;
pub mod cache_padded;
pub mod codec;
pub mod connection;
pub mod continuation;
pub mod date;
pub mod error;
pub mod interest;
pub mod json;
pub mod keys;
pub mod raft;
pub mod relay;
pub mod response;
pub mod server;
pub mod slots;
