//! The layer next to the kernel: constants and structures of its interface, the
//! system calls and the invocations built on them.
use vstd::prelude::*;

pub mod kernel;
pub mod kio;
pub mod record;
pub mod calls;
pub mod concurrency;
pub mod debug;

verus! {

} // verus!
