//! Structural validation of the on-disk bookkeeping blocks of a block-level
//! cache: a cache-block-to-origin-block mapping array, per-slot policy hints,
//! and the superblock that points at both.
//!
//! The library is pure: it decodes and checks blocks that the caller has
//! already read from the device. All device I/O lives outside.

pub mod array;
pub mod check;
pub mod errors;
pub mod hint;
pub mod laws;
pub mod mapping;
pub mod superblock;
