//! The log store: append, single-record read, and full forward replay over
//! the raw log bytes.
//!
//! The log is the sole source of truth: an ordered sequence of records from
//! offset 0 to its end. These functions work on the bytes alone; the index
//! and the store around it live in their own modules.

use vstd::prelude::*;

use crate::KeyValuePair;
use crate::StoreError;
use crate::checksum::{crc32, crc32_of};
use crate::codec::{
    HEADER_LEN, encode_record, get_u32_le, header_fits, key_at, key_len_at,
    lemma_encode_record_parses, put_u32_le, record_fits, record_len_at, record_ok,
    stored_checksum_at, value_at, value_len_at,
};

verus! {

/// One record as the replay of a log yields it: the offset where it starts
/// and its parsed content.
pub struct ReplayEntry {
    pub off: u64,
    pub key: Seq<u8>,
    pub value: Seq<u8>,
}

/// The records a forward replay of `log` from `pos` yields, in file order.
/// Replay stops at the first offset where no whole, checksum-valid record
/// lies; `replay_clean` says whether that stop was a plain end of log.
pub open spec fn replay_recs(log: Seq<u8>, pos: int) -> Seq<ReplayEntry>
    decreases log.len() - pos,
{
    if !record_ok(log, pos) {
        Seq::empty()
    } else {
        seq![ReplayEntry { off: pos as u64, key: key_at(log, pos), value: value_at(log, pos) }]
            + replay_recs(log, pos + record_len_at(log, pos))
    }
}

/// A forward replay of `log` from `pos` stops because it ran out of bytes
/// (true) rather than because a record's checksum failed (false).
pub open spec fn replay_clean(log: Seq<u8>, pos: int) -> bool
    decreases log.len() - pos,
{
    if !record_fits(log, pos) {
        true
    } else if !record_ok(log, pos) {
        false
    } else {
        replay_clean(log, pos + record_len_at(log, pos))
    }
}

/// The offset at which a forward replay of `log` from `pos` stops.
pub open spec fn replay_end(log: Seq<u8>, pos: int) -> int
    decreases log.len() - pos,
{
    if !record_ok(log, pos) {
        pos
    } else {
        replay_end(log, pos + record_len_at(log, pos))
    }
}

/// The log is exactly a sequence of valid records back to back: replay ends
/// cleanly and consumes every byte. Every log built by appending records to
/// an empty log is tight.
pub open spec fn log_tight(log: Seq<u8>) -> bool {
    replay_clean(log, 0) && replay_end(log, 0) == log.len()
}

/// Every entry that replay yields parses as a valid record at its offset,
/// with exactly the key and value the entry carries.
pub proof fn lemma_replay_entries_ok(log: Seq<u8>, pos: int)
    requires
        log.len() <= u64::MAX,
    ensures
        forall|i: int| #![trigger replay_recs(log, pos)[i]]
            0 <= i < replay_recs(log, pos).len() ==> {
                let e = replay_recs(log, pos)[i];
                &&& record_ok(log, e.off as int)
                &&& key_at(log, e.off as int) == e.key
                &&& value_at(log, e.off as int) == e.value
            },
    decreases log.len() - pos,
{
    if record_ok(log, pos) {
        let next = pos + record_len_at(log, pos);
        lemma_replay_entries_ok(log, next);
        let es = replay_recs(log, pos);
        let head = ReplayEntry { off: pos as u64, key: key_at(log, pos), value: value_at(log, pos) };
        assert forall|i: int| 0 <= i < es.len() implies {
            let e = #[trigger] es[i];
            &&& record_ok(log, e.off as int)
            &&& key_at(log, e.off as int) == e.key
            &&& value_at(log, e.off as int) == e.value
        } by {
            if i == 0 {
                assert(es[0] == head);
                assert(head.off as int == pos);
            } else {
                assert(es[i] == replay_recs(log, next)[i - 1]);
            }
        }
    }
}

/// Copies `src[start..end]` into a fresh vector.
pub fn copy_range(src: &Vec<u8>, start: usize, end: usize) -> (r: Vec<u8>)
    requires
        start <= end <= src@.len(),
    ensures
        r@ == src@.subrange(start as int, end as int),
{
    let mut out: Vec<u8> = Vec::new();
    let mut i: usize = start;
    while i < end
        invariant
            start <= i <= end <= src@.len(),
            out@ == src@.subrange(start as int, i as int),
        decreases end - i,
    {
        out.push(src[i]);
        i = i + 1;
        assert(out@ =~= src@.subrange(start as int, i as int));
    }
    out
}

/// Appends a copy of `src` to `dst`.
pub fn append_bytes(dst: &mut Vec<u8>, src: &Vec<u8>)
    ensures
        final(dst)@ == old(dst)@ + src@,
{
    let n: usize = src.len();
    let mut i: usize = 0;
    while i < n
        invariant
            i <= n == src@.len(),
            dst@ == old(dst)@ + src@.subrange(0, i as int),
        decreases n - i,
    {
        dst.push(src[i]);
        i = i + 1;
        assert(dst@ =~= old(dst)@ + src@.subrange(0, i as int));
    }
    assert(dst@ =~= old(dst)@ + src@);
}

/// Reads exactly one record at `pos` and verifies its checksum against the
/// payload actually read. `UnexpectedEndOfLog` means fewer bytes remain than
/// the header declares (or no whole header remains); `ChecksumMismatch`
/// means corruption and is never silently accepted.
pub fn read_record_at(log: &Vec<u8>, pos: u64) -> (r: Result<KeyValuePair, StoreError>)
    ensures
        record_ok(log@, pos as int) ==> (r matches Ok(kv) && kv@.key == key_at(log@, pos as int)
            && kv@.value == value_at(log@, pos as int)),
        !record_fits(log@, pos as int) ==> r == Err::<KeyValuePair, StoreError>(
            StoreError::UnexpectedEndOfLog,
        ),
        record_fits(log@, pos as int) && !record_ok(log@, pos as int) ==> r == Err::<
            KeyValuePair,
            StoreError,
        >(StoreError::ChecksumMismatch),
{
    let len: usize = log.len();
    if pos >= len as u64 || len as u64 - pos < HEADER_LEN as u64 {
        assert(!header_fits(log@, pos as int));
        return Err(StoreError::UnexpectedEndOfLog);
    }
    let p = pos as usize;
    assert(p == pos as int);
    let stored = get_u32_le(log, p);
    let klen = get_u32_le(log, p + 4);
    let vlen = get_u32_le(log, p + 8);
    assert(stored == stored_checksum_at(log@, p as int));
    assert(klen == key_len_at(log@, p as int));
    assert(vlen == value_len_at(log@, p as int));
    let remaining: usize = len - (p + HEADER_LEN);
    if (klen as u64) + (vlen as u64) > remaining as u64 {
        assert(!record_fits(log@, p as int));
        return Err(StoreError::UnexpectedEndOfLog);
    }
    let kl = klen as usize;
    let vl = vlen as usize;
    assert(record_fits(log@, p as int));
    let payload = copy_range(log, p + HEADER_LEN, p + HEADER_LEN + kl + vl);
    assert(payload@ =~= key_at(log@, p as int) + value_at(log@, p as int));
    let computed = crc32(&payload);
    if computed != stored {
        return Err(StoreError::ChecksumMismatch);
    }
    assert(record_ok(log@, p as int));
    let key = copy_range(&payload, 0, kl);
    let value = copy_range(&payload, kl, kl + vl);
    assert(key@ =~= key_at(log@, p as int));
    assert(value@ =~= value_at(log@, p as int));
    Ok(KeyValuePair { key, value })
}

/// Serializes one record (checksum over `key ++ value`, then the two length
/// fields, then the payload), appends it at the end of the log, and returns
/// the offset at which the record begins. The record parses back to exactly
/// the key and value given, with a passing checksum.
pub fn append_record(log: &mut Vec<u8>, key: &Vec<u8>, value: &Vec<u8>) -> (r: u64)
    requires
        key@.len() + value@.len() <= u32::MAX,
        old(log)@.len() + HEADER_LEN + key@.len() + value@.len() <= usize::MAX,
    ensures
        final(log)@ == old(log)@ + encode_record(key@, value@),
        final(log)@.len() == old(log)@.len() + HEADER_LEN + key@.len() + value@.len(),
        r == old(log)@.len(),
        record_ok(final(log)@, r as int),
        key_at(final(log)@, r as int) == key@,
        value_at(final(log)@, r as int) == value@,
        record_len_at(final(log)@, r as int) == HEADER_LEN + key@.len() + value@.len(),
{
    let mut payload: Vec<u8> = Vec::new();
    append_bytes(&mut payload, key);
    append_bytes(&mut payload, value);
    assert(payload@ =~= key@ + value@);
    let csum = crc32(&payload);
    let off: usize = log.len();
    put_u32_le(log, csum);
    put_u32_le(log, key.len() as u32);
    put_u32_le(log, value.len() as u32);
    append_bytes(log, key);
    append_bytes(log, value);
    assert(log@ =~= old(log)@ + encode_record(key@, value@));
    proof {
        lemma_encode_record_parses(old(log)@, key@, value@);
    }
    off as u64
}

/// Starts at offset 0 and reads one record after another, each at the offset
/// where the previous one ended, yielding `(offset, record)` pairs in file
/// order. Running out of bytes at a record boundary ends the replay cleanly;
/// a checksum failure is reported as the error it is.
pub fn replay(log: &Vec<u8>) -> (r: Result<Vec<(u64, KeyValuePair)>, StoreError>)
    ensures
        r matches Ok(v) ==> {
            &&& replay_clean(log@, 0)
            &&& v@.len() == replay_recs(log@, 0).len()
            &&& forall|i: int| #![trigger v@[i]] 0 <= i < v@.len() ==> {
                let e = replay_recs(log@, 0)[i];
                v@[i].0 == e.off && v@[i].1@.key == e.key && v@[i].1@.value == e.value
            }
        },
        r matches Err(e) ==> e == StoreError::ChecksumMismatch && !replay_clean(log@, 0),
{
    let mut out: Vec<(u64, KeyValuePair)> = Vec::new();
    let mut pos: usize = 0;
    let len: usize = log.len();
    loop
        invariant
            pos <= len == log@.len(),
            replay_recs(log@, 0) =~= entries_of(out@) + replay_recs(log@, pos as int),
            replay_clean(log@, 0) == replay_clean(log@, pos as int),
        decreases len - pos,
    {
        match read_record_at(log, pos as u64) {
            Ok(kv) => {
                assert(record_ok(log@, pos as int));
                let klen: usize = kv.key.len();
                let vlen: usize = kv.value.len();
                let ghost old_out = out@;
                out.push((pos as u64, kv));
                proof {
                    assert(entries_of(out@) =~= entries_of(old_out).push(
                        ReplayEntry {
                            off: pos as u64,
                            key: key_at(log@, pos as int),
                            value: value_at(log@, pos as int),
                        },
                    ));
                    assert(entries_of(out@) + replay_recs(log@, pos + record_len_at(log@, pos as int))
                        =~= entries_of(old_out) + replay_recs(log@, pos as int));
                }
                pos = pos + HEADER_LEN + klen + vlen;
            },
            Err(StoreError::UnexpectedEndOfLog) => {
                assert(!record_fits(log@, pos as int));
                assert(replay_recs(log@, pos as int) =~= Seq::<ReplayEntry>::empty());
                assert(entries_of(out@) =~= replay_recs(log@, 0));
                return Ok(out);
            },
            Err(StoreError::ChecksumMismatch) => {
                assert(record_fits(log@, pos as int) && !record_ok(log@, pos as int));
                return Err(StoreError::ChecksumMismatch);
            },
        }
    }
}

/// The replay entries that a vector of `(offset, record)` pairs stands for.
pub open spec fn entries_of(v: Seq<(u64, KeyValuePair)>) -> Seq<ReplayEntry> {
    v.map_values(|p: (u64, KeyValuePair)| ReplayEntry { off: p.0, key: p.1@.key, value: p.1@.value })
}

} // verus!
