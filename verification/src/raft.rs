//! The plain data of a replicated log: its entries, its metadata keys, and
//! the status that a node reports.

use std::collections::HashMap;
use vstd::prelude::*;

verus! {

/// What goes wrong inside a node.
#[derive(Clone, Debug, PartialEq)]
pub enum Error {
    /// An internal failure, with its description.
    Internal(String),
}

/// A replicated log entry.
#[derive(Clone, Debug, PartialEq)]
pub struct Entry {
    /// The index of the entry.
    pub index: u64,
    /// The term in which the entry was added.
    pub term: u64,
    /// The state machine command; `None` commits a no-op during an election.
    pub command: Option<Vec<u8>>,
}

/// A metadata key.
#[derive(Clone, Debug, PartialEq)]
pub enum Key {
    /// The key under which the current term and vote are kept.
    TermVote,
}

impl Key {
    /// The bytes that stand for each key.
    pub open spec fn encoded(&self) -> Seq<u8> {
        match self {
            Key::TermVote => seq![0x00u8],
        }
    }

    /// The bytes under which the key is stored.
    pub fn encode(&self) -> (bytes: Vec<u8>)
        ensures
            bytes@ == self.encoded(),
    {
        match self {
            Key::TermVote => {
                let mut bytes: Vec<u8> = Vec::new();
                bytes.push(0x00);
                assert(bytes@ =~= seq![0x00u8]);
                bytes
            },
        }
    }
}

/// The status that a node reports.
#[derive(Clone, Debug, PartialEq)]
pub struct Status {
    pub server: String,
    pub leader: String,
    pub term: u64,
    pub node_last_index: HashMap<String, u64>,
    pub commit_index: u64,
    pub apply_index: u64,
    pub storage: String,
    pub storage_size: u64,
}

} // verus!
