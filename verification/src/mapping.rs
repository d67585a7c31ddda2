//! The mapping record: one entry per cache-block slot, relating the slot to
//! the origin-device block it currently caches.
//!
//! On disk an entry is a fixed-width little-endian record: the origin block
//! number (8 bytes) followed by the flag bits (4 bytes).

use vstd::prelude::*;
use vstd::bytes::spec_u32_from_le_bytes;
use vstd::bytes::spec_u64_from_le_bytes;
use vstd::bytes::u32_from_le_bytes;
use vstd::bytes::u64_from_le_bytes;
use vstd::slice::slice_subrange;
use crate::errors::CheckError;

verus! {

/// Flag bit: the slot holds a live mapping.
pub const MAPPING_FLAG_VALID: u32 = 1;

/// Flag bit: the cached data has not been written back to the origin.
/// Only meaningful under metadata format version 1; later versions track
/// dirtiness elsewhere.
pub const MAPPING_FLAG_DIRTY: u32 = 2;

/// Width in bytes of one mapping entry on disk.
pub const MAPPING_WIDTH: usize = 12;

/// One cache-slot mapping.
#[derive(Clone, Copy, Debug, PartialEq, Eq, Structural)]
pub struct Mapping {
    /// The origin-device block this slot caches.
    pub oblock: u64,
    /// Flag bits; see `MAPPING_FLAG_VALID` and `MAPPING_FLAG_DIRTY`.
    pub flags: u32,
}

impl Mapping {
    /// Whether the slot holds a live mapping.
    pub open spec fn spec_is_valid(self) -> bool {
        self.flags & MAPPING_FLAG_VALID != 0
    }

    /// Whether the slot holds a live mapping; slots without `VALID` are
    /// legitimately empty and exempt from all further checks.
    pub fn is_valid(&self) -> (r: bool)
        ensures
            r == self.spec_is_valid(),
    {
        self.flags & MAPPING_FLAG_VALID != 0
    }
}

/// The flag bits a mapping may carry under the given metadata format
/// version: `VALID`, plus `DIRTY` only under version 1.
pub open spec fn spec_allowed_flags(version: u32) -> u32 {
    if version == 1 {
        MAPPING_FLAG_VALID | MAPPING_FLAG_DIRTY
    } else {
        MAPPING_FLAG_VALID
    }
}

/// Whether the mapping's flags are drawn only from the set `allowed`.
pub open spec fn spec_flags_allowed(m: Mapping, allowed: u32) -> bool {
    m.flags & !allowed == 0
}

/// The mapping stored in the `MAPPING_WIDTH` bytes at the start of `s`.
pub open spec fn spec_mapping_of(s: Seq<u8>) -> Mapping
    recommends
        s.len() == MAPPING_WIDTH,
{
    Mapping {
        oblock: spec_u64_from_le_bytes(s.subrange(0, 8)),
        flags: spec_u32_from_le_bytes(s.subrange(8, 12)),
    }
}

/// Decodes the mapping entry stored at byte `offset` of `block`; fails when
/// the block is too short to hold a whole entry there.
pub fn decode_mapping(block: &[u8], offset: usize) -> (r: Result<Mapping, CheckError>)
    ensures
        offset + MAPPING_WIDTH <= block@.len() ==> r == Ok::<Mapping, CheckError>(
            spec_mapping_of(block@.subrange(offset as int, offset + MAPPING_WIDTH)),
        ),
        offset + MAPPING_WIDTH > block@.len() ==> r == Err::<Mapping, CheckError>(
            CheckError::Decode,
        ),
{
    if offset > block.len() || block.len() - offset < MAPPING_WIDTH {
        return Err(CheckError::Decode);
    }
    let ob = u64_from_le_bytes(slice_subrange(block, offset, offset + 8));
    let fl = u32_from_le_bytes(slice_subrange(block, offset + 8, offset + MAPPING_WIDTH));
    proof {
        let s = block@.subrange(offset as int, offset + MAPPING_WIDTH);
        assert(block@.subrange(offset as int, offset + 8) =~= s.subrange(0, 8));
        assert(block@.subrange(offset + 8, offset + MAPPING_WIDTH) =~= s.subrange(8, 12));
    }
    Ok(Mapping { oblock: ob, flags: fl })
}

} // verus!
