//! The on-disk record format.
//!
//! A record is `checksum (4 bytes) ++ key_length (4) ++ value_length (4) ++
//! key ++ value`, every integer little-endian. A log is zero or more such
//! records back to back; the empty byte sequence is a valid, empty log.

use vstd::prelude::*;

use crate::checksum::crc32_of;

verus! {

/// The number of bytes in a record's fixed-width header: checksum,
/// key length and value length, four bytes each.
pub const HEADER_LEN: usize = 12;

/// A record's mathematical content: the key and value byte sequences.
pub struct RecordView {
    pub key: Seq<u8>,
    pub value: Seq<u8>,
}

/// The four little-endian bytes of a 32-bit integer.
pub open spec fn le32(n: u32) -> Seq<u8> {
    seq![
        (n & 0xff) as u8,
        ((n >> 8) & 0xff) as u8,
        ((n >> 16) & 0xff) as u8,
        ((n >> 24) & 0xff) as u8,
    ]
}

/// The 32-bit integer encoded by four little-endian bytes.
pub open spec fn le32_val(b0: u8, b1: u8, b2: u8, b3: u8) -> u32 {
    ((b0 as u32) | ((b1 as u32) << 8) | ((b2 as u32) << 16) | ((b3 as u32) << 24)) as u32
}

/// The 32-bit integer stored little-endian at `pos` in `bytes`.
pub open spec fn le32_at(bytes: Seq<u8>, pos: int) -> u32 {
    le32_val(bytes[pos], bytes[pos + 1], bytes[pos + 2], bytes[pos + 3])
}

/// Decoding the four little-endian bytes of `n` gives back `n`.
pub proof fn lemma_le32_round_trip(n: u32)
    ensures
        le32_val(le32(n)[0], le32(n)[1], le32(n)[2], le32(n)[3]) == n,
{
    assert((((n & 0xff) as u8) as u32) | ((((n >> 8) & 0xff) as u8) as u32) << 8
        | ((((n >> 16) & 0xff) as u8) as u32) << 16 | ((((n >> 24) & 0xff) as u8) as u32) << 24
        == n) by (bit_vector);
}

/// Two four-byte groups that decode to the same integer are equal byte for
/// byte: little-endian decoding loses nothing.
pub proof fn lemma_le32_injective(a0: u8, a1: u8, a2: u8, a3: u8, b0: u8, b1: u8, b2: u8, b3: u8)
    requires
        le32_val(a0, a1, a2, a3) == le32_val(b0, b1, b2, b3),
    ensures
        a0 == b0 && a1 == b1 && a2 == b2 && a3 == b3,
{
    assert(((a0 as u32) | ((a1 as u32) << 8) | ((a2 as u32) << 16) | ((a3 as u32) << 24)
        == (b0 as u32) | ((b1 as u32) << 8) | ((b2 as u32) << 16) | ((b3 as u32) << 24))
        ==> a0 == b0 && a1 == b1 && a2 == b2 && a3 == b3) by (bit_vector);
}

/// Appends the four little-endian bytes of `n` to `out`.
pub fn put_u32_le(out: &mut Vec<u8>, n: u32)
    ensures
        final(out)@ == old(out)@ + le32(n),
{
    out.push((n & 0xff) as u8);
    out.push(((n >> 8) & 0xff) as u8);
    out.push(((n >> 16) & 0xff) as u8);
    out.push(((n >> 24) & 0xff) as u8);
    assert(out@ =~= old(out)@ + le32(n));
}

/// Reads the 32-bit little-endian integer at `pos`.
pub fn get_u32_le(bytes: &Vec<u8>, pos: usize) -> (r: u32)
    requires
        pos + 4 <= bytes@.len(),
    ensures
        r == le32_at(bytes@, pos as int),
{
    let len: usize = bytes.len();
    let b0 = bytes[pos];
    let b1 = bytes[pos + 1];
    let b2 = bytes[pos + 2];
    let b3 = bytes[pos + 3];
    (b0 as u32) | ((b1 as u32) << 8) | ((b2 as u32) << 16) | ((b3 as u32) << 24)
}

/// The encoded bytes of one record holding `key` and `value`.
pub open spec fn encode_record(key: Seq<u8>, value: Seq<u8>) -> Seq<u8> {
    le32(crc32_of(key + value)) + le32(key.len() as u32) + le32(value.len() as u32) + key + value
}

/// A full record header lies within the log at `pos`.
pub open spec fn header_fits(log: Seq<u8>, pos: int) -> bool {
    0 <= pos && pos + HEADER_LEN <= log.len()
}

/// The checksum field of the record at `pos`.
pub open spec fn stored_checksum_at(log: Seq<u8>, pos: int) -> u32 {
    le32_at(log, pos)
}

/// The key-length field of the record at `pos`.
pub open spec fn key_len_at(log: Seq<u8>, pos: int) -> u32 {
    le32_at(log, pos + 4)
}

/// The value-length field of the record at `pos`.
pub open spec fn value_len_at(log: Seq<u8>, pos: int) -> u32 {
    le32_at(log, pos + 8)
}

/// The total encoded length of the record at `pos`: header plus payload.
pub open spec fn record_len_at(log: Seq<u8>, pos: int) -> int {
    HEADER_LEN + key_len_at(log, pos) + value_len_at(log, pos)
}

/// Header and payload of the record at `pos` both lie within the log.
pub open spec fn record_fits(log: Seq<u8>, pos: int) -> bool {
    header_fits(log, pos) && pos + record_len_at(log, pos) <= log.len()
}

/// The key bytes of the record at `pos`.
pub open spec fn key_at(log: Seq<u8>, pos: int) -> Seq<u8> {
    log.subrange(pos + HEADER_LEN, pos + HEADER_LEN + key_len_at(log, pos))
}

/// The value bytes of the record at `pos`.
pub open spec fn value_at(log: Seq<u8>, pos: int) -> Seq<u8> {
    log.subrange(pos + HEADER_LEN + key_len_at(log, pos), pos + record_len_at(log, pos))
}

/// The content of the record at `pos`.
pub open spec fn record_at(log: Seq<u8>, pos: int) -> RecordView {
    RecordView { key: key_at(log, pos), value: value_at(log, pos) }
}

/// The record at `pos` fits and its stored checksum matches one recomputed
/// over the payload actually present.
pub open spec fn record_ok(log: Seq<u8>, pos: int) -> bool {
    record_fits(log, pos) && stored_checksum_at(log, pos) == crc32_of(
        key_at(log, pos) + value_at(log, pos),
    )
}

/// Appending bytes after a record changes nothing about how that record
/// parses: every field is read from offsets below the old end of the log.
pub proof fn lemma_record_unaffected_by_append(log: Seq<u8>, ext: Seq<u8>, pos: int)
    requires
        record_fits(log, pos),
    ensures
        record_fits(log + ext, pos),
        record_len_at(log + ext, pos) == record_len_at(log, pos),
        key_at(log + ext, pos) == key_at(log, pos),
        value_at(log + ext, pos) == value_at(log, pos),
        record_ok(log + ext, pos) == record_ok(log, pos),
{
    let log2 = log + ext;
    assert(le32_at(log2, pos) == le32_at(log, pos));
    assert(le32_at(log2, pos + 4) == le32_at(log, pos + 4));
    assert(le32_at(log2, pos + 8) == le32_at(log, pos + 8));
    assert(key_at(log2, pos) =~= key_at(log, pos));
    assert(value_at(log2, pos) =~= value_at(log, pos));
}

/// Round trip: a record encoded and appended at the end of a log parses back
/// to the very key and value it was built from, with a passing checksum.
pub proof fn lemma_encode_record_parses(log: Seq<u8>, key: Seq<u8>, value: Seq<u8>)
    requires
        key.len() <= u32::MAX,
        value.len() <= u32::MAX,
        key.len() + value.len() <= u32::MAX,
    ensures
        ({
            let log2 = log + encode_record(key, value);
            let pos = log.len() as int;
            &&& log2.len() == log.len() + HEADER_LEN + key.len() + value.len()
            &&& record_ok(log2, pos)
            &&& record_len_at(log2, pos) == HEADER_LEN + key.len() + value.len()
            &&& key_at(log2, pos) == key
            &&& value_at(log2, pos) == value
            &&& stored_checksum_at(log2, pos) == crc32_of(key + value)
        }),
{
    let enc = encode_record(key, value);
    let log2 = log + enc;
    let pos = log.len() as int;
    let csum = crc32_of(key + value);
    let klen = key.len() as u32;
    let vlen = value.len() as u32;
    assert(enc.len() == 12 + key.len() + value.len());
    assert forall|i: int| 0 <= i < enc.len() implies log2[pos + i] == enc[i] by {}

    assert(le32_at(log2, pos) == le32_val(le32(csum)[0], le32(csum)[1], le32(csum)[2], le32(csum)[3]));
    lemma_le32_round_trip(csum);
    assert(le32_at(log2, pos + 4) == le32_val(le32(klen)[0], le32(klen)[1], le32(klen)[2], le32(klen)[3]));
    lemma_le32_round_trip(klen);
    assert(le32_at(log2, pos + 8) == le32_val(le32(vlen)[0], le32(vlen)[1], le32(vlen)[2], le32(vlen)[3]));
    lemma_le32_round_trip(vlen);

    assert(key_len_at(log2, pos) == klen);
    assert(value_len_at(log2, pos) == vlen);
    assert(record_fits(log2, pos));
    assert(key_at(log2, pos) =~= key);
    assert(value_at(log2, pos) =~= value);
}

} // verus!
