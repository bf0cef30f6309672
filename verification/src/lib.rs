//! The root task of a capability-based microkernel on x86-64: the capability-slot
//! allocator, the untyped-memory and device-memory allocators, the virtual-region
//! allocator with the page mapper, the heap's bookkeeping and the interrupt manager.
//!
//! Every function here is verified. The kernel and the hardware are reached through the
//! trait [`mantle::kio::Syscalls`], whose methods promise nothing: what is proved holds
//! whatever the kernel answers.
//!
//! A [`mantle::kio::Machine`] keeps, as ghost state, the record of every step taken at
//! the kernel with what came back from it. The contracts speak of that record in three
//! ways. A function that takes a fixed number of steps says which steps the record has
//! gained (`retyped`, `deleted`, `table_steps`). A function whose outcome hangs on the
//! kernel's verdicts says for which verdicts it succeeds, often through
//! [`mantle::calls::agreed`]: the kernel refused nothing in a stretch of the record. And
//! a driver, whose steps depend on the bytes that the hardware returns, gives a reading
//! of the record ([`drivers::ioport::Run`]): a function of the record that says which
//! exchange it must hold from the place where the call began, and what the call returns
//! for it.
use vstd::prelude::*;

pub mod crust;
pub mod drivers;
pub mod intervals;
pub mod kobject;
pub mod mantle;
pub mod memory;

verus! {

} // verus!
