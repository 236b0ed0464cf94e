//! A region-based (arena) allocator.
//!
//! Variable-sized requests are served by bump allocation inside growable
//! backing blocks kept in an ordered chain; nothing is freed per object,
//! the whole arena is released at once and is then immediately reusable.
#![verifier::loop_isolation(false)]

use vstd::prelude::*;

pub mod arena;
pub mod block;

pub use arena::{AllocHandle, Arena};
pub use block::ArenaBlock;

verus! {

/// Every way an arena operation can fail.
#[derive(Debug, Clone, Copy, PartialEq, Eq, Structural)]
pub enum ArenaError {
    /// The underlying memory system could not satisfy an acquisition.
    OutOfMemory,
    /// A zero-byte request, which block acquisition rejects.
    InvalidSize,
    /// The header-plus-capacity size of a block is not representable.
    InvalidAlignment,
    /// A release was attempted on an absent block handle.
    NullPointer,
}

pub type ArenaResult<T> = Result<T, ArenaError>;

} // verus!
