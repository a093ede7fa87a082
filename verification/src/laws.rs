//! The store's governing laws, each proved once and for all inputs.
//!
//! These relate the public operations to one another through the same spec
//! functions their contracts use: what a write makes of a later read, what a
//! tombstone does and does not do to the log, and what replay makes of the
//! index.

use vstd::prelude::*;

use crate::codec::{
    HEADER_LEN, encode_record, key_at, key_len_at, lemma_encode_record_parses,
    lemma_le32_injective, lemma_record_unaffected_by_append, record_fits, record_len_at,
    record_ok, stored_checksum_at, value_at, value_len_at,
};
use crate::index::index_from;
use crate::log::{ReplayEntry, log_tight, replay_clean, replay_end, replay_recs};
use crate::store::{StoreView, spec_get, spec_insert, store_wf};

verus! {

/// Round trip: the record a write appends parses back, at the offset where
/// it was appended, to exactly the key and value written, with a passing
/// checksum.
pub proof fn lemma_round_trip(s: StoreView, key: Seq<u8>, value: Seq<u8>)
    requires
        key.len() + value.len() <= u32::MAX,
    ensures
        record_ok(spec_insert(s, key, value).log, s.log.len() as int),
        key_at(spec_insert(s, key, value).log, s.log.len() as int) == key,
        value_at(spec_insert(s, key, value).log, s.log.len() as int) == value,
{
    lemma_encode_record_parses(s.log, key, value);
}

/// A read right after a write sees that write: the key's logical value is
/// the one just written, with an empty value read back as absence.
pub proof fn lemma_get_after_insert(s: StoreView, key: Seq<u8>, value: Seq<u8>)
    requires
        key.len() + value.len() <= u32::MAX,
        s.log.len() <= u64::MAX,
    ensures
        spec_get(spec_insert(s, key, value), key) == if value.len() == 0 {
            None
        } else {
            Some(value)
        },
{
    lemma_encode_record_parses(s.log, key, value);
}

/// A write to one key changes no other key's logical value.
pub proof fn lemma_get_other_key_unchanged(s: StoreView, key: Seq<u8>, value: Seq<u8>, other: Seq<u8>)
    requires
        store_wf(s),
        other != key,
    ensures
        spec_get(spec_insert(s, key, value), other) == spec_get(s, other),
{
    if s.idx.dom().contains(other) {
        lemma_record_unaffected_by_append(s.log, encode_record(key, value), s.idx[other] as int);
    }
}

/// Last write wins: after writes of `v1`, `v2`, `v3` to one key, in that
/// order, the key's logical value is `v3`.
pub proof fn lemma_last_write_wins(
    s: StoreView,
    key: Seq<u8>,
    v1: Seq<u8>,
    v2: Seq<u8>,
    v3: Seq<u8>,
)
    requires
        key.len() + v3.len() <= u32::MAX,
        v3.len() > 0,
        s.log.len() + 2 * HEADER_LEN + 2 * key.len() + v1.len() + v2.len() <= u64::MAX,
    ensures
        spec_get(
            spec_insert(spec_insert(spec_insert(s, key, v1), key, v2), key, v3),
            key,
        ) == Some(v3),
{
    lemma_get_after_insert(spec_insert(spec_insert(s, key, v1), key, v2), key, v3);
}

/// Appending one record to a tight log extends its replay by exactly that
/// record and keeps the log tight: nothing already replayed moves or
/// disappears. Stated from any record boundary `pos` so that the whole-log
/// case is the instance `pos == 0`.
proof fn lemma_replay_append_from(log: Seq<u8>, key: Seq<u8>, value: Seq<u8>, pos: int)
    requires
        key.len() + value.len() <= u32::MAX,
        log.len() <= u64::MAX,
        0 <= pos,
        replay_clean(log, pos),
        replay_end(log, pos) == log.len(),
    ensures
        replay_recs(log + encode_record(key, value), pos) == replay_recs(log, pos).push(
            ReplayEntry { off: log.len() as u64, key, value },
        ),
        replay_clean(log + encode_record(key, value), pos),
        replay_end(log + encode_record(key, value), pos) == log.len() + encode_record(
            key,
            value,
        ).len(),
    decreases log.len() - pos,
{
    let enc = encode_record(key, value);
    let log2 = log + enc;
    let e = ReplayEntry { off: log.len() as u64, key, value };
    if !record_ok(log, pos) {
        assert(pos == log.len());
        lemma_encode_record_parses(log, key, value);
        assert(record_ok(log2, pos));
        assert(key_at(log2, pos) == key);
        assert(value_at(log2, pos) == value);
        let next = pos + record_len_at(log2, pos);
        assert(next == log2.len());
        assert(!record_fits(log2, next));
        assert(replay_recs(log2, next) =~= Seq::<ReplayEntry>::empty());
        assert(replay_recs(log, pos) =~= Seq::<ReplayEntry>::empty());
        assert(replay_recs(log2, pos) =~= replay_recs(log, pos).push(e));
        assert(replay_clean(log2, next));
        assert(replay_end(log2, next) == next);
        assert(replay_clean(log2, pos));
        assert(replay_end(log2, pos) == next);
    } else {
        lemma_record_unaffected_by_append(log, enc, pos);
        let next = pos + record_len_at(log, pos);
        lemma_replay_append_from(log, key, value, next);
        assert(record_len_at(log2, pos) == record_len_at(log, pos));
        assert(replay_recs(log2, pos) =~= seq![
            ReplayEntry { off: pos as u64, key: key_at(log2, pos), value: value_at(log2, pos) },
        ] + replay_recs(log2, next));
        assert(replay_recs(log2, pos) =~= replay_recs(log, pos).push(e));
        assert(record_ok(log2, pos));
        assert(replay_clean(log2, pos) == replay_clean(log2, next));
        assert(replay_end(log2, pos) == replay_end(log2, next));
    }
}

/// Tombstone monotonicity: a delete makes the key read as absent, yet the
/// log strictly grows and a full replay still yields every prior record,
/// in order, followed by the tombstone itself.
pub proof fn lemma_tombstone(s: StoreView, key: Seq<u8>)
    requires
        key.len() <= u32::MAX,
        s.log.len() <= u64::MAX,
        log_tight(s.log),
    ensures
        spec_get(spec_insert(s, key, Seq::empty()), key) is None,
        spec_insert(s, key, Seq::empty()).log.len() == s.log.len() + HEADER_LEN + key.len(),
        replay_recs(spec_insert(s, key, Seq::empty()).log, 0) == replay_recs(s.log, 0).push(
            ReplayEntry { off: s.log.len() as u64, key, value: Seq::empty() },
        ),
        log_tight(spec_insert(s, key, Seq::empty()).log),
{
    lemma_get_after_insert(s, key, Seq::empty());
    lemma_replay_append_from(s.log, key, Seq::empty(), 0);
}

/// A warm index stays cold-rebuildable: when a store's index is exactly what
/// replaying its log yields, one write keeps it so. Hence a store reopened
/// against the same bytes and replayed from a cold index shows the same
/// state as the store that wrote them.
pub proof fn lemma_reopen_after_write(s: StoreView, key: Seq<u8>, value: Seq<u8>)
    requires
        key.len() + value.len() <= u32::MAX,
        s.log.len() <= u64::MAX,
        log_tight(s.log),
        s.idx == index_from(replay_recs(s.log, 0)),
    ensures
        spec_insert(s, key, value).idx == index_from(
            replay_recs(spec_insert(s, key, value).log, 0),
        ),
        log_tight(spec_insert(s, key, value).log),
{
    lemma_replay_append_from(s.log, key, value, 0);
    let e = ReplayEntry { off: s.log.len() as u64, key, value };
    let before = replay_recs(s.log, 0);
    assert(before.push(e).drop_last() =~= before);
    assert(before.push(e).last() == e);
    assert(index_from(before.push(e)) == index_from(before).insert(key, s.log.len() as u64));
}

/// Replay idempotence: two indexes rebuilt from the same log, with no write
/// between, hold identical contents.
pub proof fn lemma_rebuild_idempotent(a: StoreView, b: StoreView)
    requires
        a.log == b.log,
        a.idx == index_from(replay_recs(a.log, 0)),
        b.idx == index_from(replay_recs(b.log, 0)),
    ensures
        a.idx == b.idx,
{
}

/// Corruption of the checksum field alone is detected: flipping any byte of
/// a valid record's checksum, with the payload intact, leaves a record that
/// still fits but whose checksum no longer passes. (That a flip within the
/// key or value bytes is caught as well is a property of CRC-32 itself,
/// which the checksum's contract does not carry; the tests exercise it.)
pub proof fn lemma_checksum_byte_flip(log: Seq<u8>, pos: int, i: int, b: u8)
    requires
        record_ok(log, pos),
        pos <= i < pos + 4,
        b != log[i],
    ensures
        record_fits(log.update(i, b), pos),
        !record_ok(log.update(i, b), pos),
{
    let log2 = log.update(i, b);
    assert(crate::codec::le32_at(log2, pos + 4) == crate::codec::le32_at(log, pos + 4));
    assert(crate::codec::le32_at(log2, pos + 8) == crate::codec::le32_at(log, pos + 8));
    assert(key_len_at(log2, pos) == key_len_at(log, pos));
    assert(value_len_at(log2, pos) == value_len_at(log, pos));
    assert(key_at(log2, pos) =~= key_at(log, pos));
    assert(value_at(log2, pos) =~= value_at(log, pos));
    if stored_checksum_at(log2, pos) == stored_checksum_at(log, pos) {
        lemma_le32_injective(
            log2[pos],
            log2[pos + 1],
            log2[pos + 2],
            log2[pos + 3],
            log[pos],
            log[pos + 1],
            log[pos + 2],
            log[pos + 3],
        );
        assert(log2[i] == log[i]);
        assert(false);
    }
}

/// Empty-store behavior: an empty log replays to nothing, rebuilds an empty
/// index, and every key reads as absent.
pub proof fn lemma_empty_store(key: Seq<u8>)
    ensures
        replay_recs(Seq::empty(), 0) == Seq::<ReplayEntry>::empty(),
        index_from(replay_recs(Seq::empty(), 0)) == Map::<Seq<u8>, u64>::empty(),
        spec_get(
            StoreView { log: Seq::empty(), idx: index_from(replay_recs(Seq::empty(), 0)) },
            key,
        ) is None,
        log_tight(Seq::empty()),
{
    assert(!record_fits(Seq::<u8>::empty(), 0));
    assert(replay_recs(Seq::<u8>::empty(), 0) =~= Seq::<ReplayEntry>::empty());
}

} // verus!
