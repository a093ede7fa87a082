//! The 32-bit checksum that guards every record's payload.
//!
//! The checksum algorithm itself (CRC-32) lives in an outside crate; this
//! module gives its result a name, `crc32_of`, that the record format's
//! contracts can speak of.

use vstd::prelude::*;

verus! {

/// The CRC-32 checksum of a byte sequence. The value depends on the bytes
/// alone, so two calls on equal inputs agree, in any process and on any
/// machine.
pub uninterp spec fn crc32_of(data: Seq<u8>) -> u32;

/// Relies on crc32fast::hash: the CRC-32 (IEEE) checksum of the bytes,
/// a pure function of its input.
#[verifier::external_body]
pub fn crc32(data: &Vec<u8>) -> (r: u32)
    ensures
        r == crc32_of(data@),
{
    crc32fast::hash(data.as_slice())
}

} // verus!
