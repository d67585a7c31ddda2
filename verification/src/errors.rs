//! The error kinds a check run can end with. Any failure is fatal: the first
//! one encountered aborts the current phase and becomes the overall result.

use vstd::prelude::*;

verus! {

/// Why a check run failed.
#[derive(Clone, Copy, Debug, PartialEq, Eq, Structural)]
pub enum CheckError {
    /// A block read failed on the device.
    Io,
    /// A block's bytes could not be parsed into the expected fixed-width
    /// entries.
    Decode,
    /// Two valid mappings claim the same origin block.
    DuplicateOriginBlock,
    /// A mapping carries flag bits outside the set allowed for the active
    /// metadata version.
    UnknownFlags,
    /// The superblock was short, carried a bad magic number, or an
    /// unsupported version.
    Superblock,
}

impl CheckError {
    /// A short human-readable description, for callers that report the
    /// failure.
    pub fn describe(&self) -> String {
        match self {
            CheckError::Io => "block read failed".to_string(),
            CheckError::Decode => "malformed array block".to_string(),
            CheckError::DuplicateOriginBlock => "origin block already mapped".to_string(),
            CheckError::UnknownFlags => "unknown flags in mapping".to_string(),
            CheckError::Superblock => "invalid superblock".to_string(),
        }
    }
}

} // verus!
