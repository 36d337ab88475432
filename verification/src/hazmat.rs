//! The header in front of the hidden payload.

use vstd::prelude::*;

use crate::error::HazmatError;
use crate::utils::{
    le_bytes, le_value, lemma_le_bytes_len, lemma_le_bytes_of_value, lemma_le_round_trip,
    lemma_pow256_values, put_le, read_le, read_le_u64,
};

verus! {

/// Marks a header of the first format version.
pub const SIGNATURE_VER1: u128 = 0xde61af8ddd996602f4148ac83b9e506f;

/// Alignment of the payload area.
pub const ALIGN_TO: u64 = 0x1000;

/// Bytes in a header.
pub const HEADER_SIZE: usize = 32;

/// Fixed-size header written before the project-specific payload area.
#[derive(Clone, Copy, Debug, PartialEq, Eq, Structural)]
pub struct Header {
    /// Tells a header from anything else.
    pub signature: u128,
    /// First sector of the payload.
    pub starting_lba: u64,
    /// Last sector of the payload.
    pub ending_lba: u64,
}

/// The bytes of a header.
pub open spec fn header_bytes(h: Header) -> Seq<u8> {
    le_bytes(h.signature as nat, 16) + le_bytes(h.starting_lba as nat, 8) + le_bytes(
        h.ending_lba as nat,
        8,
    )
}

/// The header whose bytes `s` starts with, if `s` bears the signature.
pub open spec fn header_in(s: Seq<u8>) -> Option<Header> {
    if le_value(s.subrange(0, 16)) == SIGNATURE_VER1 {
        Some(
            Header {
                signature: SIGNATURE_VER1,
                starting_lba: le_value(s.subrange(16, 24)) as u64,
                ending_lba: le_value(s.subrange(24, 32)) as u64,
            },
        )
    } else {
        None
    }
}

/// The header for a range of sectors that starts with the sector of the header
/// itself.
pub open spec fn payload_header(starting_lba: int, ending_lba: int) -> Header {
    Header {
        signature: SIGNATURE_VER1,
        starting_lba: (starting_lba + 1) as u64,
        ending_lba: ending_lba as u64,
    }
}

/// Serializes a project header for the inclusive sector range reserved after
/// the cover FAT32 file system.
pub fn create_header(starting_lba: u64, ending_lba: u64) -> (buffer: Vec<u8>)
    requires
        starting_lba < u64::MAX,
    ensures
        buffer@ == header_bytes(payload_header(starting_lba as int, ending_lba as int)),
{
    let header = Header {
        signature: SIGNATURE_VER1,
        starting_lba: starting_lba + 1,
        ending_lba,
    };
    let mut bytes: [u8; 32] = [0; 32];
    put_le(&mut bytes, 0, header.signature, 16);
    put_le(&mut bytes, 16, header.starting_lba as u128, 8);
    put_le(&mut bytes, 24, header.ending_lba as u128, 8);
    proof {
        lemma_le_bytes_len(header.signature as nat, 16);
        lemma_le_bytes_len(header.starting_lba as nat, 8);
        lemma_le_bytes_len(header.ending_lba as nat, 8);
        assert(bytes@ =~= header_bytes(header));
    }
    vstd::slice::slice_to_vec(&bytes)
}

/// Reads the header that a buffer starts with; `None` where the signature is
/// missing.
pub fn verify_header(buffer: &[u8]) -> (result: Result<Option<Header>, HazmatError>)
    ensures
        match result {
            Ok(header) => buffer@.len() >= HEADER_SIZE && header == header_in(buffer@),
            Err(e) => buffer@.len() < HEADER_SIZE && e == (HazmatError::HeaderTooShort {
                len: buffer@.len() as usize,
            }),
        },
{
    if buffer.len() < HEADER_SIZE {
        return Err(HazmatError::HeaderTooShort { len: buffer.len() });
    }
    let signature: u128 = read_le(buffer, 0, 16);
    if signature != SIGNATURE_VER1 {
        return Ok(None);
    }
    Ok(
        Some(
            Header {
                signature,
                starting_lba: read_le_u64(buffer, 16),
                ending_lba: read_le_u64(buffer, 24),
            },
        ),
    )
}

/// A header is read back from any buffer that starts with its bytes.
pub proof fn headers_read_back(starting_lba: u64, ending_lba: u64, rest: Seq<u8>)
    requires
        starting_lba < u64::MAX,
    ensures
        ({
            let h = payload_header(starting_lba as int, ending_lba as int);
            &&& header_bytes(h).len() == HEADER_SIZE
            &&& header_in(header_bytes(h) + rest) == Some(h)
        }),
{
    let h = payload_header(starting_lba as int, ending_lba as int);
    let s = header_bytes(h) + rest;
    lemma_le_bytes_len(h.signature as nat, 16);
    lemma_le_bytes_len(h.starting_lba as nat, 8);
    lemma_le_bytes_len(h.ending_lba as nat, 8);
    lemma_pow256_values();
    lemma_le_round_trip(h.signature as nat, 16);
    lemma_le_round_trip(h.starting_lba as nat, 8);
    lemma_le_round_trip(h.ending_lba as nat, 8);
    assert(s.subrange(0, 16) =~= le_bytes(h.signature as nat, 16));
    assert(s.subrange(16, 24) =~= le_bytes(h.starting_lba as nat, 8));
    assert(s.subrange(24, 32) =~= le_bytes(h.ending_lba as nat, 8));
}

/// A buffer in which a header is found starts with the bytes of that header, so
/// no two headers share their bytes.
pub proof fn found_headers_spell_their_bytes(s: Seq<u8>)
    requires
        s.len() >= HEADER_SIZE,
    ensures
        header_in(s) matches Some(h) ==> s.take(HEADER_SIZE as int) == header_bytes(h),
{
    lemma_le_bytes_of_value(s.subrange(0, 16));
    lemma_le_bytes_of_value(s.subrange(16, 24));
    lemma_le_bytes_of_value(s.subrange(24, 32));
    lemma_pow256_values();
    if let Some(h) = header_in(s) {
        assert(s.take(HEADER_SIZE as int) =~= s.subrange(0, 16) + s.subrange(16, 24) + s.subrange(
            24,
            32,
        ));
    }
}

/// A header is the signature in 16 bytes, the sector behind the header in 8 and
/// the last sector in 8, each little-endian.
pub proof fn headers_hold_their_fields_in_order(starting_lba: u64, ending_lba: u64)
    requires
        starting_lba < u64::MAX,
    ensures
        ({
            let b = header_bytes(payload_header(starting_lba as int, ending_lba as int));
            &&& b.len() == 32
            &&& le_value(b.subrange(0, 16)) == 0xde61af8ddd996602f4148ac83b9e506f
            &&& le_value(b.subrange(16, 24)) == starting_lba + 1
            &&& le_value(b.subrange(24, 32)) == ending_lba
        }),
{
    let h = payload_header(starting_lba as int, ending_lba as int);
    let b = header_bytes(h);
    lemma_le_bytes_len(h.signature as nat, 16);
    lemma_le_bytes_len(h.starting_lba as nat, 8);
    lemma_le_bytes_len(h.ending_lba as nat, 8);
    lemma_pow256_values();
    lemma_le_round_trip(h.signature as nat, 16);
    lemma_le_round_trip(h.starting_lba as nat, 8);
    lemma_le_round_trip(h.ending_lba as nat, 8);
    assert(b.subrange(0, 16) =~= le_bytes(h.signature as nat, 16));
    assert(b.subrange(16, 24) =~= le_bytes(h.starting_lba as nat, 8));
    assert(b.subrange(24, 32) =~= le_bytes(h.ending_lba as nat, 8));
}

/// A header is found exactly where the whole signature is, and then its fields
/// are those of the bytes behind it.
pub proof fn headers_are_told_by_the_signature(s: Seq<u8>)
    requires
        s.len() >= 32,
    ensures
        header_in(s) is Some <==> le_value(s.subrange(0, 16)) == 0xde61af8ddd996602f4148ac83b9e506f,
        header_in(s) matches Some(h) ==> {
            &&& h.signature == 0xde61af8ddd996602f4148ac83b9e506f
            &&& h.starting_lba == le_value(s.subrange(16, 24))
            &&& h.ending_lba == le_value(s.subrange(24, 32))
        },
{
    lemma_le_bytes_of_value(s.subrange(16, 24));
    lemma_le_bytes_of_value(s.subrange(24, 32));
    lemma_pow256_values();
}

} // verus!
