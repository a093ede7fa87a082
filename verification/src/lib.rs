//! An embedded key-value store built on an append-only, checksummed log.
//!
//! Every write (insert, update, delete) appends one length-prefixed,
//! checksummed record to the log; reads go through an in-memory index that
//! maps each key to the offset of its most recent record. The index is a
//! cache: it is rebuilt from the log on open and kept current by every write.
//! A delete appends a tombstone (a record with an empty value); no record is
//! ever rewritten or removed, so the log only grows and offsets are stable.

pub mod checksum;
pub mod codec;
pub mod cpu;
pub mod index;
pub mod laws;
pub mod log;
pub mod store;

use vstd::prelude::*;

use crate::codec::RecordView;

verus! {

/// One key/value entry as stored in the log.
#[derive(Debug, PartialEq, Eq)]
pub struct KeyValuePair {
    pub key: Vec<u8>,
    pub value: Vec<u8>,
}

impl View for KeyValuePair {
    type V = RecordView;

    open spec fn view(&self) -> RecordView {
        RecordView { key: self.key@, value: self.value@ }
    }
}

/// A caller's intent against the store, as a front end parses it.
#[derive(Debug)]
pub enum Action {
    Get(Vec<u8>),
    Put(KeyValuePair),
    Delete(Vec<u8>),
}

/// What can go wrong when reading a record back from the log.
#[derive(Clone, Copy, Debug, PartialEq, Eq, Structural)]
pub enum StoreError {
    /// A record's stored checksum disagrees with one recomputed over the
    /// payload actually read: corruption, never silently accepted.
    ChecksumMismatch,
    /// Fewer bytes remain than the record's header declares. During
    /// sequential replay from a record boundary this is the normal signal
    /// that the end of the log has been reached.
    UnexpectedEndOfLog,
}

} // verus!
