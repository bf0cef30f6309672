use vstd::prelude::*;
use crate::crust;
use crate::kobject::caprange::CapRange;
use crate::kobject::capset::{CapSlotSet, SlotWindow};
use crate::mantle::calls;
use crate::mantle::calls::{invocation, verdict};
use crate::mantle::kernel;
use crate::mantle::kernel::KError;
use crate::mantle::kio::{answer_of, extends, group_extends, Event, Machine, Syscalls};

verus! {

broadcast use group_extends;

/// A slot of the root CNode that holds no capability. Its view is the slot's index.
#[must_use]
#[derive(Debug)]
pub struct CapSlot {
    index: usize,
}

impl CapSlot {
    pub closed spec fn view(&self) -> usize {
        self.index
    }

    /// Declares that the slot now holds a capability.
    pub fn assert_populated(self) -> (r: Cap)
        ensures
            r@ == self@,
    {
        Cap { loc: self }
    }

    /// Gives up the handle and leaves the bare index.
    pub fn deconstruct(self) -> (r: usize)
        ensures
            r == self@,
    {
        self.index
    }

    pub fn peek_index(&self) -> (r: usize)
        ensures
            r == self@,
    {
        self.index
    }

    /// The range that holds just this slot.
    pub fn to_range(&self) -> (r: CapRange)
        requires
            self@ < usize::MAX,
        ensures
            r.wf(),
            r@.start == self@,
            r@.end == self@ + 1,
    {
        CapRange::single(self.index)
    }

    /// The set over just this slot, with the slot in it.
    pub fn become_set(self) -> (r: CapSlotSet)
        requires
            self@ < usize::MAX,
        ensures
            r.wf(),
            r@ == (SlotWindow {
                start: self@ as int,
                end: self@ + 1,
                fillstart: self@ as int,
                fillend: self@ + 1,
            }),
    {
        let mut out = self.to_range().to_set_empty();
        out.readd(self);
        out
    }

    pub fn from_index(index: usize) -> (r: CapSlot)
        ensures
            r@ == index,
    {
        CapSlot { index }
    }
}

/// The record `after` is the record `before` with the deletion of the capability in slot
/// `slot` of the root CNode and, where the kernel refused it, the fault.
pub open spec fn deleted(before: Seq<Event>, slot: usize, after: Seq<Event>) -> bool {
    let n = before.len() as int;
    let step = invocation(
        crust::ROOT_SLOT,
        kernel::TAG_CNODE_DELETE,
        0,
        2,
        slot,
        crust::ROOT_BITS,
        0,
        0,
        answer_of(after[n]),
    );
    if after.len() == n + 1 {
        after == before.push(step) && verdict(answer_of(after[n])) == KError::NoError
    } else {
        after == before.push(step).push(Event::Fault { err: verdict(answer_of(after[n])) })
            && verdict(answer_of(after[n])) != KError::NoError
    }
}

/// A deletion leaves what was recorded before it.
pub broadcast proof fn lemma_deleted_extends(before: Seq<Event>, slot: usize, after: Seq<Event>)
    requires
        #[trigger] deleted(before, slot, after),
    ensures
        extends(before, after),
{
    let n = before.len() as int;
    assert(after.subrange(0, n) =~= before);
}

/// A slot of the root CNode that holds a capability. Its view is the slot's index.
#[must_use]
#[derive(Debug)]
pub struct Cap {
    loc: CapSlot,
}

impl Cap {
    pub closed spec fn view(&self) -> usize {
        self.loc@
    }

    /// Declares that the slot no longer holds a capability.
    pub fn assert_unpopulated(self) -> (r: CapSlot)
        ensures
            r@ == self@,
    {
        self.loc
    }

    pub fn peek_slot(&self) -> (r: &CapSlot)
        ensures
            r@ == self@,
    {
        &self.loc
    }

    pub fn peek_index(&self) -> (r: usize)
        ensures
            r == self@,
    {
        self.loc.peek_index()
    }

    /// Has the kernel delete the capability and returns the slot, now empty. The kernel
    /// must not refuse; if it does, the machine's `fault` is told.
    pub fn delete<S: Syscalls>(self, k: &mut Machine<S>) -> (r: CapSlot)
        ensures
            r@ == self@,
            deleted(old(k)@, self@, final(k)@),
            extends(old(k)@, final(k)@),
    {
        let err = calls::cnode_delete(k, crust::ROOT_SLOT, self.peek_index(), crust::ROOT_BITS as u8);
        if err.is_error() {
            k.fault(err);
        }
        self.loc
    }
}

} // verus!
