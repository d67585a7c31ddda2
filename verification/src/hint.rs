//! The policy-hint record: one entry per cache-block slot, an opaque payload
//! of a fixed width configured by the caching policy. The checker only
//! requires that every hint decodes; it does not interpret the payload.

use vstd::prelude::*;
use vstd::slice::slice_subrange;
use vstd::slice::slice_to_vec;
use crate::errors::CheckError;

verus! {

/// One policy hint: an opaque byte payload of the configured width.
#[derive(Debug, PartialEq, Eq)]
pub struct Hint {
    /// The raw payload, exactly as stored on disk.
    pub data: Vec<u8>,
}

impl Hint {
    /// The payload bytes.
    pub open spec fn payload(self) -> Seq<u8> {
        self.data@
    }
}

/// Decodes the hint entry of `width` bytes stored at byte `offset` of
/// `block`; fails when the block is too short to hold a whole entry there.
pub fn decode_hint(block: &[u8], offset: usize, width: usize) -> (r: Result<Hint, CheckError>)
    ensures
        offset + width <= block@.len() ==> (r matches Ok(h) && h.payload() == block@.subrange(
            offset as int,
            offset + width,
        )),
        offset + width > block@.len() ==> r == Err::<Hint, CheckError>(CheckError::Decode),
{
    if offset > block.len() || block.len() - offset < width {
        return Err(CheckError::Decode);
    }
    let data = slice_to_vec(slice_subrange(block, offset, offset + width));
    Ok(Hint { data })
}

} // verus!
