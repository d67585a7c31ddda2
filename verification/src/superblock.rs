//! The superblock: the singleton header at a fixed, well-known block address.
//! It exposes the metadata format version, the root block addresses of the
//! mapping and hint arrays, and the configured policy-hint width.
//!
//! Layout, little endian: magic (8 bytes), version (4), policy hint size (4),
//! mapping root (8), hint root (8).

use vstd::prelude::*;
use vstd::bytes::spec_u32_from_le_bytes;
use vstd::bytes::spec_u64_from_le_bytes;
use vstd::bytes::u32_from_le_bytes;
use vstd::bytes::u64_from_le_bytes;
use vstd::slice::slice_subrange;
use crate::errors::CheckError;

verus! {

/// Size in bytes of one on-disk metadata block.
pub const BLOCK_SIZE: usize = 4096;

/// The block address the superblock always lives at.
pub const SUPERBLOCK_LOCATION: u64 = 0;

/// The magic number that opens a well-formed superblock.
pub const SUPERBLOCK_MAGIC: u64 = 6142003;

/// Bytes of the decoded part of the superblock.
pub const SUPERBLOCK_WIDTH: usize = 32;

/// The fields of the superblock that the checker consumes. Read once per
/// run, never mutated.
#[derive(Clone, Copy, Debug, PartialEq, Eq, Structural)]
pub struct Superblock {
    /// Metadata format version, 1 or greater.
    pub version: u32,
    /// Width in bytes of one policy-hint entry.
    pub policy_hint_size: u32,
    /// Block address of the mapping array, 0 if absent.
    pub mapping_root: u64,
    /// Block address of the hint array, 0 if absent.
    pub hint_root: u64,
}

/// The superblock stored at the start of `s`.
pub open spec fn spec_superblock_of(s: Seq<u8>) -> Superblock
    recommends
        s.len() >= SUPERBLOCK_WIDTH,
{
    Superblock {
        version: spec_u32_from_le_bytes(s.subrange(8, 12)),
        policy_hint_size: spec_u32_from_le_bytes(s.subrange(12, 16)),
        mapping_root: spec_u64_from_le_bytes(s.subrange(16, 24)),
        hint_root: spec_u64_from_le_bytes(s.subrange(24, 32)),
    }
}

/// Whether `s` opens with a well-formed superblock: long enough, the right
/// magic number, and a supported version.
pub open spec fn spec_superblock_wf(s: Seq<u8>) -> bool {
    &&& s.len() >= SUPERBLOCK_WIDTH
    &&& spec_u64_from_le_bytes(s.subrange(0, 8)) == SUPERBLOCK_MAGIC
    &&& spec_superblock_of(s).version >= 1
}

/// Decodes and validates the superblock at the start of `block`; any failure
/// here is fatal to the whole check run.
pub fn decode_superblock(block: &[u8]) -> (r: Result<Superblock, CheckError>)
    ensures
        spec_superblock_wf(block@) ==> r == Ok::<Superblock, CheckError>(
            spec_superblock_of(block@),
        ),
        !spec_superblock_wf(block@) ==> r == Err::<Superblock, CheckError>(
            CheckError::Superblock,
        ),
{
    if block.len() < SUPERBLOCK_WIDTH {
        return Err(CheckError::Superblock);
    }
    let magic = u64_from_le_bytes(slice_subrange(block, 0, 8));
    if magic != SUPERBLOCK_MAGIC {
        return Err(CheckError::Superblock);
    }
    let version = u32_from_le_bytes(slice_subrange(block, 8, 12));
    if version < 1 {
        return Err(CheckError::Superblock);
    }
    let policy_hint_size = u32_from_le_bytes(slice_subrange(block, 12, 16));
    let mapping_root = u64_from_le_bytes(slice_subrange(block, 16, 24));
    let hint_root = u64_from_le_bytes(slice_subrange(block, 24, 32));
    Ok(Superblock { version, policy_hint_size, mapping_root, hint_root })
}

} // verus!
