//! Drivers of the devices that the root task uses itself.
use vstd::prelude::*;

pub mod bits;
pub mod ioport;
pub mod irq;
pub mod keyboard;
pub mod serial;
pub mod vga;

verus! {

} // verus!
