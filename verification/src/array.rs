//! The on-disk array layout the walker traverses.
//!
//! An array's entries are packed across leaf blocks. Every leaf opens with a
//! little-endian entry count (4 bytes) followed by that many fixed-width
//! entries. An index block resolves an array root to its ordered leaf
//! addresses: a little-endian leaf count (4 bytes) followed by that many
//! 8-byte block addresses.

use vstd::prelude::*;
use vstd::bytes::spec_u32_from_le_bytes;
use vstd::bytes::spec_u64_from_le_bytes;
use vstd::bytes::u32_from_le_bytes;
use vstd::bytes::u64_from_le_bytes;
use vstd::slice::slice_subrange;
use crate::errors::CheckError;
use crate::mapping::Mapping;
use crate::mapping::MAPPING_WIDTH;
use crate::mapping::spec_mapping_of;

verus! {

/// Bytes of the entry-count header that opens every leaf and index block.
pub const BLOCK_HEADER_WIDTH: usize = 4;

/// Bytes of one leaf address in an index block.
pub const INDEX_ENTRY_WIDTH: usize = 8;

/// The number of entries a leaf block declares.
pub open spec fn spec_leaf_nr_entries(leaf: Seq<u8>) -> u32
    recommends
        leaf.len() >= BLOCK_HEADER_WIDTH,
{
    spec_u32_from_le_bytes(leaf.subrange(0, 4))
}

/// Whether a leaf block is well formed for entries of the given width: it
/// holds its header and as many whole entries as the header declares.
pub open spec fn spec_leaf_wf(leaf: Seq<u8>, width: int) -> bool {
    &&& leaf.len() >= BLOCK_HEADER_WIDTH
    &&& BLOCK_HEADER_WIDTH + spec_leaf_nr_entries(leaf) * width <= leaf.len()
}

/// The byte range of entry `i` in a leaf of entries of the given width.
pub open spec fn spec_leaf_entry_bytes(leaf: Seq<u8>, i: int, width: int) -> Seq<u8> {
    leaf.subrange(BLOCK_HEADER_WIDTH + i * width, BLOCK_HEADER_WIDTH + i * width + width)
}

/// The mapping entries a well-formed leaf holds, in index order.
pub open spec fn spec_leaf_mappings(leaf: Seq<u8>) -> Seq<Mapping>
    recommends
        spec_leaf_wf(leaf, MAPPING_WIDTH as int),
{
    Seq::new(
        spec_leaf_nr_entries(leaf) as nat,
        |i: int| spec_mapping_of(spec_leaf_entry_bytes(leaf, i, MAPPING_WIDTH as int)),
    )
}

/// Whether an index block is well formed: it holds its header and as many
/// whole leaf addresses as the header declares.
pub open spec fn spec_index_wf(block: Seq<u8>) -> bool {
    &&& block.len() >= BLOCK_HEADER_WIDTH
    &&& BLOCK_HEADER_WIDTH + spec_leaf_nr_entries(block) * (INDEX_ENTRY_WIDTH as int)
        <= block.len()
}

/// The ordered leaf addresses a well-formed index block holds.
pub open spec fn spec_index_addresses(block: Seq<u8>) -> Seq<u64>
    recommends
        spec_index_wf(block),
{
    Seq::new(
        spec_leaf_nr_entries(block) as nat,
        |i: int| spec_u64_from_le_bytes(
            spec_leaf_entry_bytes(block, i, INDEX_ENTRY_WIDTH as int),
        ),
    )
}

/// Resolves an array root block to its ordered leaf addresses; fails when
/// the block does not hold a whole address table.
pub fn decode_index_block(block: &[u8]) -> (r: Result<Vec<u64>, CheckError>)
    ensures
        spec_index_wf(block@) ==> (r matches Ok(v) && v@ == spec_index_addresses(block@)),
        !spec_index_wf(block@) ==> r == Err::<Vec<u64>, CheckError>(CheckError::Decode),
{
    if block.len() < BLOCK_HEADER_WIDTH {
        return Err(CheckError::Decode);
    }
    let nr = u32_from_le_bytes(slice_subrange(block, 0, 4));
    let need: u64 = (BLOCK_HEADER_WIDTH as u64) + (nr as u64) * (INDEX_ENTRY_WIDTH as u64);
    if need > (block.len() as u64) {
        return Err(CheckError::Decode);
    }
    let nr_us: usize = nr as usize;
    let blen: usize = block.len();
    let mut addrs: Vec<u64> = Vec::new();
    let mut i: usize = 0;
    let mut off: usize = BLOCK_HEADER_WIDTH;
    while i < nr_us
        invariant
            i <= nr_us,
            nr_us == spec_leaf_nr_entries(block@),
            blen == block@.len(),
            off == BLOCK_HEADER_WIDTH + i * INDEX_ENTRY_WIDTH,
            spec_index_wf(block@),
            addrs@ == spec_index_addresses(block@).take(i as int),
        decreases nr_us - i,
    {
        proof {
            assert((i + 1) * (INDEX_ENTRY_WIDTH as int) <= spec_leaf_nr_entries(block@) * (
            INDEX_ENTRY_WIDTH as int));
            assert(off + INDEX_ENTRY_WIDTH <= block@.len());
        }
        let a = u64_from_le_bytes(slice_subrange(block, off, off + INDEX_ENTRY_WIDTH));
        addrs.push(a);
        proof {
            assert(spec_index_addresses(block@)[i as int] == a);
            assert(addrs@ =~= spec_index_addresses(block@).take(i + 1));
        }
        i = i + 1;
        off = off + INDEX_ENTRY_WIDTH;
    }
    proof {
        assert(addrs@ =~= spec_index_addresses(block@));
    }
    Ok(addrs)
}

} // verus!
