use vstd::prelude::*;

pub mod heap;
pub mod linkedlist;
pub mod malloc;
pub mod string;
pub mod smalluntyped;
pub mod untyped;

verus! {

} // verus!
