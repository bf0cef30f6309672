//! Typed handles on capability slots and on the kernel objects in them. A handle stands
//! for exactly one slot or object: whoever holds it must pass it on or give it back.
use vstd::prelude::*;

pub mod cap;
pub mod caprange;
pub mod capset;
pub mod irq;
pub mod notification;
pub mod page4k;
pub mod steps;
pub mod untyped;

pub use self::cap::{Cap, CapSlot};
pub use self::caprange::CapRange;
pub use self::capset::{CapSet, CapSlotSet, SlotWindow};
pub use self::irq::{IRQControl, IRQHandler};
pub use self::notification::{Notification, ObjectView};
pub use self::page4k::{
    FixedMappedPage4K,
    MappedPage4K,
    MappedPageTable,
    Page4K,
    PageTable,
    PageTables,
    RegionMappedPage4K,
};
pub use self::untyped::{Untyped, UntypedSet, UntypedSetView, UntypedView};

verus! {

} // verus!
