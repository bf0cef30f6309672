//! The resources of the root task: capability slots, virtual address space and device
//! memory.
use vstd::prelude::*;

pub mod capalloc;
pub mod device;
pub mod freelist;
pub mod start;
pub mod vspace;

verus! {

/// The slot of the root CNode itself.
pub const ROOT_SLOT: usize = 2;

/// The slot of the root task's address space.
pub const ROOT_PAGEDIR: usize = 3;

/// The depth at which slots of the root CNode are addressed.
pub const ROOT_BITS: usize = 64;

} // verus!
