//! The store: one log plus one index, opened together and kept in step.
//!
//! `open` takes the raw bytes of the backing file (an empty sequence is a
//! valid, empty store); `load` rebuilds the index by replaying them; every
//! write appends one record and updates the index. Reading the file and
//! writing appended bytes back to it is the caller's business: the store
//! itself never touches the filesystem, so everything it does is a function
//! of the bytes it was given and the operations applied since.

use vstd::prelude::*;

use crate::KeyValuePair;
use crate::StoreError;
use crate::codec::{HEADER_LEN, encode_record, key_at, record_ok, value_at};
use crate::index::{Index, index_from, map_lookup};
use crate::log::{
    append_record, lemma_replay_entries_ok, read_record_at, replay_clean, replay_recs,
};

verus! {

/// The mathematical state of a store: its log bytes and its index map.
pub struct StoreView {
    pub log: Seq<u8>,
    pub idx: Map<Seq<u8>, u64>,
}

/// Every binding of the index names a whole, checksum-valid record of the
/// log whose key is the bound key. `open` and `load` establish this and
/// every write preserves it, so point lookups never run off the log or hand
/// back another key's record.
pub open spec fn store_wf(s: StoreView) -> bool {
    forall|k: Seq<u8>| #[trigger] s.idx.dom().contains(k) ==> {
        &&& record_ok(s.log, s.idx[k] as int)
        &&& key_at(s.log, s.idx[k] as int) == k
    }
}

/// What one write does to a store's state: the encoded record is appended at
/// the end of the log, and the index binds the key to the offset where that
/// record begins.
pub open spec fn spec_insert(s: StoreView, key: Seq<u8>, value: Seq<u8>) -> StoreView {
    StoreView {
        log: s.log + encode_record(key, value),
        idx: s.idx.insert(key, s.log.len() as u64),
    }
}

/// What a point lookup returns: the value of the key's latest record, with
/// an empty value (a tombstone) reported as absence.
pub open spec fn spec_get(s: StoreView, key: Seq<u8>) -> Option<Seq<u8>> {
    if s.idx.dom().contains(key) {
        if value_at(s.log, s.idx[key] as int).len() == 0 {
            None
        } else {
            Some(value_at(s.log, s.idx[key] as int))
        }
    } else {
        None
    }
}

/// An append-only key-value store: the log as the sole source of truth, and
/// an index over it for point lookups.
pub struct ActionKV {
    log: Vec<u8>,
    idx: Index,
}

impl View for ActionKV {
    type V = StoreView;

    closed spec fn view(&self) -> StoreView {
        StoreView { log: self.log@, idx: self.idx@ }
    }
}

impl ActionKV {
    /// Opens a store over the given backing bytes (the full content of the
    /// backing file; empty for a store created fresh). No byte is inspected
    /// yet and the index starts empty: nothing is looked up until `load`
    /// has replayed the log.
    pub fn open(log: Vec<u8>) -> (r: Self)
        ensures
            r@.log == log@,
            r@.idx == Map::<Seq<u8>, u64>::empty(),
            store_wf(r@),
    {
        ActionKV { log, idx: Index::new() }
    }

    /// The offset just past the last byte of the log: where the next record
    /// will begin.
    pub fn seek_to_end(&self) -> (r: u64)
        ensures
            r == self@.log.len(),
    {
        self.log.len() as u64
    }

    /// The raw log bytes, for the caller to persist or carry elsewhere.
    pub fn log_bytes(&self) -> (r: &Vec<u8>)
        ensures
            r@ == self@.log,
    {
        &self.log
    }

    /// Rebuilds the index by replaying the whole log: for each record in
    /// file order, the key is bound to the record's offset, so the last
    /// write to a key wins. A checksum failure is reported and leaves the
    /// index covering exactly the records before the corrupt one.
    pub fn load(&mut self) -> (r: Result<(), StoreError>)
        ensures
            final(self)@.log == old(self)@.log,
            final(self)@.idx == index_from(replay_recs(old(self)@.log, 0)),
            r is Ok <==> replay_clean(old(self)@.log, 0),
            r matches Err(e) ==> e == StoreError::ChecksumMismatch,
            store_wf(final(self)@),
    {
        let len: usize = self.log.len();
        let r = self.idx.rebuild_from(&self.log);
        proof {
            assert(self@.log.len() == len);
            lemma_replay_entries_ok(self@.log, 0);
            crate::index::lemma_index_from_ok(self@.log, replay_recs(self@.log, 0));
        }
        r
    }

    /// The value of `key`'s most recent record, through the index: `None`
    /// for a key the index does not know or whose latest record is a
    /// tombstone. Never touches more than that one record.
    pub fn get(&self, key: &Vec<u8>) -> (r: Option<Vec<u8>>)
        requires
            store_wf(self@),
        ensures
            r is Some <==> spec_get(self@, key@) is Some,
            r matches Some(v) ==> spec_get(self@, key@) == Some(v@),
    {
        let pos = match self.idx.lookup(key) {
            Some(pos) => pos,
            None => {
                return None;
            },
        };
        assert(self@.idx.dom().contains(key@));
        let kv = match self.get_at(pos) {
            Ok(kv) => kv,
            Err(_) => {
                // Unreachable: the index only ever holds offsets of valid
                // records, so the read cannot fail.
                proof {
                    assert(record_ok(self@.log, pos as int));
                    assert(false);
                }
                return None;
            },
        };
        if kv.value.len() == 0 {
            None
        } else {
            Some(kv.value)
        }
    }

    /// Reads exactly one record at `pos`, checksum verified. At an offset
    /// where no whole record lies this fails with `UnexpectedEndOfLog`; at
    /// one where the stored checksum disagrees with the payload, with
    /// `ChecksumMismatch`.
    pub fn get_at(&self, pos: u64) -> (r: Result<KeyValuePair, StoreError>)
        ensures
            record_ok(self@.log, pos as int) ==> (r matches Ok(kv)
                && kv@.key == key_at(self@.log, pos as int)
                && kv@.value == value_at(self@.log, pos as int)),
            !crate::codec::record_fits(self@.log, pos as int) ==> r == Err::<
                KeyValuePair,
                StoreError,
            >(StoreError::UnexpectedEndOfLog),
            crate::codec::record_fits(self@.log, pos as int) && !record_ok(self@.log, pos as int)
                ==> r == Err::<KeyValuePair, StoreError>(StoreError::ChecksumMismatch),
    {
        read_record_at(&self.log, pos)
    }

    /// A linear fallback scan over the full replay, independent of the
    /// index: the offset and value of the last record whose key matches, or
    /// absence if none does. A checksum failure anywhere in the log is
    /// reported as the error it is.
    pub fn find(&self, key: &Vec<u8>) -> (r: Result<Option<(u64, Vec<u8>)>, StoreError>)
        ensures
            r is Ok <==> replay_clean(self@.log, 0),
            r matches Err(e) ==> e == StoreError::ChecksumMismatch,
            r matches Ok(found) ==> {
                let m = last_match(replay_recs(self@.log, 0), key@);
                match found {
                    Some(p) => m matches Some(e) && e.off == p.0 && e.value == p.1@,
                    None => m is None,
                }
            },
    {
        let mut found: Option<(u64, Vec<u8>)> = None;
        let mut pos: usize = 0;
        let len: usize = self.log.len();
        let ghost mut processed: Seq<crate::log::ReplayEntry> = Seq::empty();
        loop
            invariant
                pos <= len == self@.log.len(),
                replay_recs(self@.log, 0) =~= processed + replay_recs(self@.log, pos as int),
                replay_clean(self@.log, 0) == replay_clean(self@.log, pos as int),
                match found {
                    Some(p) => last_match(processed, key@) matches Some(e) && e.off == p.0
                        && e.value == p.1@,
                    None => last_match(processed, key@) is None,
                },
            decreases len - pos,
        {
            match read_record_at(&self.log, pos as u64) {
                Ok(kv) => {
                    assert(record_ok(self@.log, pos as int));
                    let klen: usize = kv.key.len();
                    let vlen: usize = kv.value.len();
                    let ghost e = crate::log::ReplayEntry {
                        off: pos as u64,
                        key: key_at(self@.log, pos as int),
                        value: value_at(self@.log, pos as int),
                    };
                    if crate::index::bytes_eq(&kv.key, key) {
                        found = Some((pos as u64, kv.value));
                    }
                    proof {
                        assert(processed.push(e).drop_last() =~= processed);
                        assert(processed.push(e).last() == e);
                        assert(processed.push(e) + replay_recs(
                            self@.log,
                            pos + crate::codec::record_len_at(self@.log, pos as int),
                        ) =~= processed + replay_recs(self@.log, pos as int));
                        processed = processed.push(e);
                    }
                    pos = pos + HEADER_LEN + klen + vlen;
                },
                Err(StoreError::UnexpectedEndOfLog) => {
                    assert(replay_recs(self@.log, pos as int)
                        =~= Seq::<crate::log::ReplayEntry>::empty());
                    assert(processed =~= replay_recs(self@.log, 0));
                    return Ok(found);
                },
                Err(StoreError::ChecksumMismatch) => {
                    return Err(StoreError::ChecksumMismatch);
                },
            }
        }
    }

    /// Appends one record for `key` and `value` at the end of the log,
    /// without touching the index, and returns the offset at which the
    /// record begins. The record parses back to exactly this key and value.
    pub fn insert_but_ignore_index(&mut self, key: &Vec<u8>, value: &Vec<u8>) -> (r: u64)
        requires
            key@.len() + value@.len() <= u32::MAX,
            old(self)@.log.len() + HEADER_LEN + key@.len() + value@.len() <= usize::MAX,
        ensures
            final(self)@.log == old(self)@.log + encode_record(key@, value@),
            final(self)@.idx == old(self)@.idx,
            r == old(self)@.log.len(),
            record_ok(final(self)@.log, r as int),
            key_at(final(self)@.log, r as int) == key@,
            value_at(final(self)@.log, r as int) == value@,
            store_wf(old(self)@) ==> store_wf(final(self)@),
    {
        let ghost pre = self@;
        let r = append_record(&mut self.log, key, value);
        proof {
            if store_wf(pre) {
                let ext = encode_record(key@, value@);
                assert forall|k: Seq<u8>| #[trigger] self@.idx.dom().contains(k) implies {
                    &&& record_ok(self@.log, self@.idx[k] as int)
                    &&& key_at(self@.log, self@.idx[k] as int) == k
                } by {
                    crate::codec::lemma_record_unaffected_by_append(
                        pre.log,
                        ext,
                        pre.idx[k] as int,
                    );
                }
            }
        }
        r
    }

    /// A write: appends the record, then binds `key` to its offset in the
    /// index. Inserting an existing key overwrites its logical value; no
    /// prior record is touched.
    pub fn insert(&mut self, key: &Vec<u8>, value: &Vec<u8>)
        requires
            store_wf(old(self)@),
            key@.len() + value@.len() <= u32::MAX,
            old(self)@.log.len() + HEADER_LEN + key@.len() + value@.len() <= usize::MAX,
        ensures
            final(self)@ == spec_insert(old(self)@, key@, value@),
            store_wf(final(self)@),
    {
        let pos = self.insert_but_ignore_index(key, value);
        let mut key_copy: Vec<u8> = Vec::new();
        crate::log::append_bytes(&mut key_copy, key);
        assert(key_copy@ =~= key@);
        self.idx.note_write(key_copy, pos);
        proof {
            assert(self@.log == spec_insert(old(self)@, key@, value@).log);
            assert(self@.idx =~= spec_insert(old(self)@, key@, value@).idx);
            assert forall|k: Seq<u8>| #[trigger] self@.idx.dom().contains(k) implies {
                &&& record_ok(self@.log, self@.idx[k] as int)
                &&& key_at(self@.log, self@.idx[k] as int) == k
            } by {}
        }
    }

    /// Identical to `insert`; a distinct name for caller intent only.
    pub fn update(&mut self, key: &Vec<u8>, value: &Vec<u8>)
        requires
            store_wf(old(self)@),
            key@.len() + value@.len() <= u32::MAX,
            old(self)@.log.len() + HEADER_LEN + key@.len() + value@.len() <= usize::MAX,
        ensures
            final(self)@ == spec_insert(old(self)@, key@, value@),
            store_wf(final(self)@),
    {
        self.insert(key, value)
    }

    /// A logical delete: appends a tombstone (a record with an empty value)
    /// and binds `key` to it. No prior record is removed or compacted, so
    /// the log still holds the key's whole history.
    pub fn delete(&mut self, key: &Vec<u8>)
        requires
            store_wf(old(self)@),
            key@.len() <= u32::MAX,
            old(self)@.log.len() + HEADER_LEN + key@.len() <= usize::MAX,
        ensures
            final(self)@ == spec_insert(old(self)@, key@, Seq::empty()),
            store_wf(final(self)@),
    {
        let empty: Vec<u8> = Vec::new();
        self.insert(key, &empty)
    }
}

/// The last entry of `es` whose key is `key`, if any: what a linear scan of
/// the full replay finds.
pub open spec fn last_match(es: Seq<crate::log::ReplayEntry>, key: Seq<u8>) -> Option<
    crate::log::ReplayEntry,
>
    decreases es.len(),
{
    if es.len() == 0 {
        None
    } else if es.last().key == key {
        Some(es.last())
    } else {
        last_match(es.drop_last(), key)
    }
}

} // verus!
