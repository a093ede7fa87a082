//! The index: an in-memory mapping from key bytes to the offset of that
//! key's most recently appended record.
//!
//! The index is a cache derivable entirely from the log: `rebuild_from`
//! replays the log and keeps, for each key, the offset of its last record
//! (last-write-wins by log order). Its mathematical view is a `Map` from key
//! bytes to offsets, with at most one entry per distinct key.

use vstd::prelude::*;

use crate::StoreError;
use crate::codec::{key_at, record_fits, record_len_at, record_ok, value_at};
use crate::log::{ReplayEntry, read_record_at, replay_clean, replay_recs};

verus! {

/// One key-to-offset binding held by the index.
pub struct IndexEntry {
    pub key: Vec<u8>,
    pub off: u64,
}

/// The mapping a sequence of bindings stands for: later bindings overwrite
/// earlier ones for the same key.
pub open spec fn assoc_map(es: Seq<IndexEntry>) -> Map<Seq<u8>, u64>
    decreases es.len(),
{
    if es.len() == 0 {
        Map::empty()
    } else {
        assoc_map(es.drop_last()).insert(es.last().key@, es.last().off)
    }
}

/// The index a replay yields: each record in file order binds its key to its
/// offset, later records overwriting earlier ones.
pub open spec fn index_from(es: Seq<ReplayEntry>) -> Map<Seq<u8>, u64>
    decreases es.len(),
{
    if es.len() == 0 {
        Map::empty()
    } else {
        index_from(es.drop_last()).insert(es.last().key, es.last().off)
    }
}

/// A map lookup as an option: `Some` offset for a known key, `None` for an
/// unknown one.
pub open spec fn map_lookup(m: Map<Seq<u8>, u64>, key: Seq<u8>) -> Option<u64> {
    if m.dom().contains(key) {
        Some(m[key])
    } else {
        None
    }
}

/// If every entry of `es` names a valid record of `log` whose key it carries,
/// then so does every binding of the map built from `es`.
pub proof fn lemma_index_from_ok(log: Seq<u8>, es: Seq<ReplayEntry>)
    requires
        forall|i: int| #![trigger es[i]] 0 <= i < es.len() ==> {
            &&& record_ok(log, es[i].off as int)
            &&& key_at(log, es[i].off as int) == es[i].key
        },
    ensures
        forall|k: Seq<u8>| #[trigger] index_from(es).dom().contains(k) ==> {
            &&& record_ok(log, index_from(es)[k] as int)
            &&& key_at(log, index_from(es)[k] as int) == k
        },
    decreases es.len(),
{
    if es.len() > 0 {
        assert(forall|i: int| #![trigger es.drop_last()[i]]
            0 <= i < es.drop_last().len() ==> es.drop_last()[i] == es[i]);
        lemma_index_from_ok(log, es.drop_last());
        let last = es.last();
        assert(last == es[es.len() - 1]);
        assert(index_from(es) == index_from(es.drop_last()).insert(last.key, last.off));
        assert forall|k: Seq<u8>| #[trigger] index_from(es).dom().contains(k) implies {
            &&& record_ok(log, index_from(es)[k] as int)
            &&& key_at(log, index_from(es)[k] as int) == k
        } by {
            if k == last.key {
                assert(index_from(es)[k] == last.off);
            } else {
                assert(index_from(es.drop_last()).dom().contains(k));
            }
        }
    }
}

/// The in-memory index. It holds its bindings in insertion order; the view
/// collapses them so that the latest binding for a key wins, which is
/// exactly the map the log's replay defines.
pub struct Index {
    entries: Vec<IndexEntry>,
}

impl View for Index {
    type V = Map<Seq<u8>, u64>;

    closed spec fn view(&self) -> Map<Seq<u8>, u64> {
        assoc_map(self.entries@)
    }
}

impl Index {
    /// A fresh, empty index.
    pub fn new() -> (r: Self)
        ensures
            r@ == Map::<Seq<u8>, u64>::empty(),
    {
        Index { entries: Vec::new() }
    }

    /// Pure map read: the offset of `key`'s latest record, if the index
    /// knows the key.
    pub fn lookup(&self, key: &Vec<u8>) -> (r: Option<u64>)
        ensures
            r == map_lookup(self@, key@),
    {
        let n: usize = self.entries.len();
        let mut found: Option<u64> = None;
        let mut i: usize = 0;
        while i < n
            invariant
                i <= n == self.entries@.len(),
                found == map_lookup(assoc_map(self.entries@.take(i as int)), key@),
            decreases n - i,
        {
            let ghost pre = self.entries@.take(i as int);
            if bytes_eq(&self.entries[i].key, key) {
                found = Some(self.entries[i].off);
            }
            proof {
                assert(self.entries@.take(i + 1).drop_last() =~= pre);
                assert(self.entries@.take(i + 1).last() == self.entries@[i as int]);
            }
            i = i + 1;
        }
        proof {
            assert(self.entries@.take(n as int) =~= self.entries@);
        }
        found
    }

    /// Records that `key`'s latest record now starts at `off`; called after
    /// every successful append for that key, tombstones included.
    pub fn note_write(&mut self, key: Vec<u8>, off: u64)
        ensures
            final(self)@ == old(self)@.insert(key@, off),
    {
        let ghost pre = self.entries@;
        self.entries.push(IndexEntry { key, off });
        proof {
            assert(self.entries@.drop_last() =~= pre);
        }
    }

    /// Clears the map, then replays the log from offset 0 and binds each
    /// record's key to its offset in file order, so that for every key the
    /// last record wins. This is the only way an index is populated from a
    /// log; an `Err` reports the checksum failure replay ran into, with the
    /// bindings of every record before the corrupt one in place.
    pub fn rebuild_from(&mut self, log: &Vec<u8>) -> (r: Result<(), StoreError>)
        ensures
            final(self)@ == index_from(replay_recs(log@, 0)),
            r is Ok ==> replay_clean(log@, 0),
            r matches Err(e) ==> e == StoreError::ChecksumMismatch && !replay_clean(log@, 0),
    {
        self.entries = Vec::new();
        let len: usize = log.len();
        let mut pos: usize = 0;
        let ghost mut processed: Seq<ReplayEntry> = Seq::empty();
        loop
            invariant
                pos <= len == log@.len(),
                self@ == index_from(processed),
                replay_recs(log@, 0) =~= processed + replay_recs(log@, pos as int),
                replay_clean(log@, 0) == replay_clean(log@, pos as int),
            decreases len - pos,
        {
            match read_record_at(log, pos as u64) {
                Ok(kv) => {
                    assert(record_ok(log@, pos as int));
                    let klen: usize = kv.key.len();
                    let vlen: usize = kv.value.len();
                    let ghost e = ReplayEntry {
                        off: pos as u64,
                        key: key_at(log@, pos as int),
                        value: value_at(log@, pos as int),
                    };
                    self.note_write(kv.key, pos as u64);
                    proof {
                        assert(processed.push(e).drop_last() =~= processed);
                        assert(processed.push(e) + replay_recs(
                            log@,
                            pos + record_len_at(log@, pos as int),
                        ) =~= processed + replay_recs(log@, pos as int));
                        processed = processed.push(e);
                    }
                    pos = pos + crate::codec::HEADER_LEN + klen + vlen;
                },
                Err(StoreError::UnexpectedEndOfLog) => {
                    assert(replay_recs(log@, pos as int) =~= Seq::<ReplayEntry>::empty());
                    assert(processed =~= replay_recs(log@, 0));
                    return Ok(());
                },
                Err(StoreError::ChecksumMismatch) => {
                    assert(replay_recs(log@, pos as int) =~= Seq::<ReplayEntry>::empty());
                    assert(processed =~= replay_recs(log@, 0));
                    return Err(StoreError::ChecksumMismatch);
                },
            }
        }
    }
}

/// Byte-for-byte equality of two byte vectors.
pub fn bytes_eq(a: &Vec<u8>, b: &Vec<u8>) -> (r: bool)
    ensures
        r == (a@ == b@),
{
    let n: usize = a.len();
    if n != b.len() {
        assert(a@ != b@);
        return false;
    }
    let mut i: usize = 0;
    while i < n
        invariant
            i <= n == a@.len() && n == b@.len(),
            forall|j: int| 0 <= j < i ==> a@[j] == b@[j],
        decreases n - i,
    {
        if a[i] != b[i] {
            assert(a@[i as int] != b@[i as int]);
            return false;
        }
        i = i + 1;
    }
    proof {
        assert(a@ =~= b@);
    }
    true
}

} // verus!
