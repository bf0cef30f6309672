use vstd::prelude::*;
use vstd::arithmetic::power2::pow2;
use crate::crust;
use crate::crust::capalloc::{allocate_cap_slots, free_cap_slots, window_span, SlotAllocator};
use crate::crust::freelist::{first_fit, take_n, taken_and_back};
use crate::kobject::cap::{Cap, CapSlot};
use crate::kobject::capset::{CapSet, CapSlotSet, SlotWindow};
use crate::kobject::notification::Notification;
use crate::kobject::page4k::{Page4K, PageTable};
use crate::kobject::capset::deleted_all;
use crate::mantle::calls;
use crate::kobject::steps::{group_record, retyped};
use crate::mantle::calls::verdict;
use crate::mantle::kernel::{bytes_of_bits, KError, ObjectType, PAGE_4K_BITS};
use crate::mantle::kio::{extends, last_answer, Machine, Syscalls};

verus! {

broadcast use group_record;

/// What an untyped is: the slot of its capability and the size of its memory in bits.
pub struct UntypedView {
    pub slot: usize,
    pub size_bits: u8,
}

/// A capability to untyped memory: `2^size_bits` bytes that the kernel can turn into
/// objects.
#[derive(Debug)]
pub struct Untyped {
    cap: Cap,
    size_bits: u8,
}

impl Untyped {
    pub closed spec fn view(&self) -> UntypedView {
        UntypedView { slot: self.cap@, size_bits: self.size_bits }
    }

    pub fn from_cap(cap: Cap, size_bits: u8) -> (r: Untyped)
        ensures
            r@ == (UntypedView { slot: cap@, size_bits }),
    {
        Untyped { cap, size_bits }
    }

    pub fn size_bits(&self) -> (r: u8)
        ensures
            r == self@.size_bits,
    {
        self.size_bits
    }

    pub fn size_bytes(&self) -> (r: usize)
        requires
            self@.size_bits < usize::BITS,
        ensures
            r == pow2(self@.size_bits as nat),
    {
        bytes_of_bits(self.size_bits)
    }

    pub fn peek_index(&self) -> (r: usize)
        ensures
            r == self@.slot,
    {
        self.cap.peek_index()
    }

    /// Asks the kernel to retype this untyped into one object of kind `objtype` for each
    /// slot of `capslots`. All or nothing: either every slot holds a capability afterwards,
    /// or the kernel's error comes back with the slots as they were.
    fn retype_raw<S: Syscalls>(
        &self,
        objtype: ObjectType,
        size_bits: u8,
        capslots: CapSlotSet,
        k: &mut Machine<S>,
    ) -> (r: Result<CapSet, (KError, CapSlotSet)>)
        requires
            capslots.wf(),
            capslots@.is_full(),
            capslots@.capacity() > 0,
        ensures
            r matches Ok(set) ==> set.wf() && set@ == capslots@,
            r matches Err((err, slots)) ==> err != KError::NoError && slots == capslots && err
                == verdict(last_answer(final(k)@)),
            r is Ok <==> verdict(last_answer(final(k)@)) == KError::NoError,
            retyped(
                old(k)@,
                self@.slot,
                objtype,
                size_bits,
                capslots@.start,
                capslots@.capacity(),
                final(k)@,
            ),
            extends(old(k)@, final(k)@),
    {
        let mut capslots = capslots;
        let err = calls::untyped_retype(
            k,
            self.cap.peek_index(),
            objtype.code(),
            size_bits as usize,
            crust::ROOT_SLOT,
            0,
            0,
            capslots.start(),
            capslots.count(),
        );
        if err.is_okay() {
            Ok(capslots.assert_derive_capset())
        } else {
            Err((err, capslots))
        }
    }

    /// Asks the kernel to retype this untyped into one object in the slot `capslot`.
    fn retype_raw_one<S: Syscalls>(
        &self,
        objtype: ObjectType,
        size_bits: u8,
        capslot: CapSlot,
        k: &mut Machine<S>,
    ) -> (r: Result<Cap, (KError, CapSlot)>)
        requires
            capslot@ < usize::MAX,
        ensures
            r matches Ok(cap) ==> cap@ == capslot@,
            r matches Err((err, slot)) ==> err != KError::NoError && slot@ == capslot@ && err
                == verdict(last_answer(final(k)@)),
            r is Ok <==> verdict(last_answer(final(k)@)) == KError::NoError,
            retyped(old(k)@, self@.slot, objtype, size_bits, capslot@ as int, 1, final(k)@),
            extends(old(k)@, final(k)@),
    {
        match self.retype_raw(objtype, size_bits, capslot.become_set(), k) {
            Ok(capset) => {
                let mut capset = capset;
                Ok(capset.take_front().unwrap())
            },
            Err((err, capslotset)) => {
                let mut capslotset = capslotset;
                Err((err, capslotset.take_front().unwrap()))
            },
        }
    }

    /// Splits the untyped into `2^split_bits` untypeds of equal size, one for each slot of
    /// `capslots`. All or nothing: on the kernel's refusal the untyped and the slots come
    /// back unchanged.
    pub fn split<S: Syscalls>(self, split_bits: u8, capslots: CapSlotSet, k: &mut Machine<S>) -> (r: Result<
        UntypedSet,
        (KError, Untyped, CapSlotSet),
    >)
        requires
            capslots.wf(),
            capslots@.is_full(),
            capslots@.capacity() == pow2(split_bits as nat),
            split_bits + 4 <= self@.size_bits,
        ensures
            r matches Ok(set) ==> set.wf() && set@ == (UntypedSetView {
                window: capslots@,
                size_bits: (self@.size_bits - split_bits) as u8,
                parent: self@,
            }),
            r matches Err((err, ut, slots)) ==> err != KError::NoError && ut == self && slots
                == capslots && err == verdict(last_answer(final(k)@)),
            r is Ok <==> verdict(last_answer(final(k)@)) == KError::NoError,
            retyped(
                old(k)@,
                self@.slot,
                ObjectType::UntypedObject,
                (self@.size_bits - split_bits) as u8,
                capslots@.start,
                capslots@.capacity(),
                final(k)@,
            ),
            extends(old(k)@, final(k)@),
    {
        proof {
            vstd::arithmetic::power2::lemma_pow2_pos(split_bits as nat);
        }
        let final_size_bits = self.size_bits - split_bits;
        match self.retype_raw(ObjectType::UntypedObject, final_size_bits, capslots, k) {
            Ok(capset) => Ok(UntypedSet { capset, size_bits: final_size_bits, parent: self }),
            Err((err, capslotset)) => Err((err, self, capslotset)),
        }
    }

    /// Splits the untyped as `split` does, into slots taken from `slots`. On failure
    /// the slots go back to the allocator and the untyped comes back unchanged.
    pub fn split_calloc<S: Syscalls>(
        self,
        split_bits: u8,
        slots: &mut SlotAllocator,
        k: &mut Machine<S>,
    ) -> (r: Result<UntypedSet, (KError, Untyped)>)
        requires
            old(slots).wf(),
            split_bits < usize::BITS,
            split_bits + 4 <= self@.size_bits,
        ensures
            final(slots).wf(),
            final(slots).free().subset_of(old(slots).free()),
            r matches Ok(set) ==> set.wf() && set@.size_bits == self@.size_bits - split_bits
                && set@.parent == self@ && set@.window.is_full() && set@.window.capacity() == pow2(
                split_bits as nat,
            ) && first_fit(old(slots)@, pow2(split_bits as nat) as int) < old(slots)@.len()
                && set@.window.start == old(slots)@[first_fit(
                old(slots)@,
                pow2(split_bits as nat) as int,
            )].start && final(slots)@ == take_n(old(slots)@, pow2(split_bits as nat) as int),
            r matches Err((err, ut)) ==> err != KError::NoError && ut == self && final(slots).free()
                == old(slots).free(),
            first_fit(old(slots)@, pow2(split_bits as nat) as int) < old(slots)@.len() && r is Err
                ==> final(slots)@ == taken_and_back(old(slots)@, pow2(split_bits as nat) as int),
            first_fit(old(slots)@, pow2(split_bits as nat) as int) >= old(slots)@.len() ==> (r
                matches Err((err, _)) && err == KError::NotEnoughMemory && final(slots)@
                    == old(slots)@ && final(k)@ == old(k)@),
            first_fit(old(slots)@, pow2(split_bits as nat) as int) < old(slots)@.len() ==> (r is Ok
                <==> verdict(last_answer(final(k)@)) == KError::NoError) && (r matches Err(
                (err, _),
            ) ==> err == verdict(last_answer(final(k)@))) && retyped(
                old(k)@,
                self@.slot,
                ObjectType::UntypedObject,
                (self@.size_bits - split_bits) as u8,
                old(slots)@[first_fit(old(slots)@, pow2(split_bits as nat) as int)].start,
                pow2(split_bits as nat) as int,
                final(k)@,
            ),
            extends(old(k)@, final(k)@),
    {
        proof {
            vstd::arithmetic::power2::lemma_pow2_pos(split_bits as nat);
        }
        let n = bytes_of_bits(split_bits);
        let set = match allocate_cap_slots(slots, n) {
            Ok(set) => set,
            Err(err) => {
                return Err((err, self));
            },
        };
        let ghost window = set@;
        let result = self.split(split_bits, set, k);
        match result {
            Ok(us) => Ok(us),
            Err((err, ut, set)) => {
                proof {
                    assert(slots.free().disjoint(window_span(set@).points()));
                }
                free_cap_slots(slots, set);
                proof {
                    assert(slots.free() =~= old(slots).free());
                }
                Err((err, ut))
            },
        }
    }

    /// Turns a 4K untyped into a frame in the slot `capslot`. On the kernel's refusal the
    /// untyped and the slot come back.
    pub fn become_page_4k<S: Syscalls>(self, capslot: CapSlot, k: &mut Machine<S>) -> (r: Result<
        Page4K,
        (KError, Untyped, CapSlot),
    >)
        requires
            self@.size_bits == PAGE_4K_BITS,
            capslot@ < usize::MAX,
        ensures
            r matches Ok(page) ==> page@.slot == capslot@ && page@.parent == self@,
            r matches Err((err, ut, slot)) ==> err != KError::NoError && ut == self && slot@
                == capslot@ && err == verdict(last_answer(final(k)@)),
            r is Ok <==> verdict(last_answer(final(k)@)) == KError::NoError,
            retyped(old(k)@, self@.slot, ObjectType::X864K, 0, capslot@ as int, 1, final(k)@),
            extends(old(k)@, final(k)@),
    {
        match self.retype_raw_one(ObjectType::X864K, 0, capslot, k) {
            Ok(cap) => Ok(Page4K::from_retyping(cap, self)),
            Err((err, capslot)) => Err((err, self, capslot)),
        }
    }

    /// Turns a 4K untyped into a page table in the slot `capslot`. On the kernel's refusal
    /// the untyped and the slot come back.
    pub fn become_page_table<S: Syscalls>(self, capslot: CapSlot, k: &mut Machine<S>) -> (r: Result<
        PageTable,
        (KError, Untyped, CapSlot),
    >)
        requires
            self@.size_bits == PAGE_4K_BITS,
            capslot@ < usize::MAX,
        ensures
            r matches Ok(page) ==> page@.slot == capslot@ && page@.parent == self@,
            r matches Err((err, ut, slot)) ==> err != KError::NoError && ut == self && slot@
                == capslot@ && err == verdict(last_answer(final(k)@)),
            r is Ok <==> verdict(last_answer(final(k)@)) == KError::NoError,
            retyped(
                old(k)@,
                self@.slot,
                ObjectType::X86PageTableObject,
                0,
                capslot@ as int,
                1,
                final(k)@,
            ),
            extends(old(k)@, final(k)@),
    {
        match self.retype_raw_one(ObjectType::X86PageTableObject, 0, capslot, k) {
            Ok(cap) => Ok(PageTable::from_retyping(cap, self)),
            Err((err, capslot)) => Err((err, self, capslot)),
        }
    }

    /// Turns a 16-byte untyped into a notification in the slot `capslot`. On the kernel's
    /// refusal the untyped and the slot come back.
    pub fn become_notification<S: Syscalls>(self, capslot: CapSlot, k: &mut Machine<S>) -> (r: Result<
        Notification,
        (KError, Untyped, CapSlot),
    >)
        requires
            self@.size_bits == 4,
            capslot@ < usize::MAX,
        ensures
            r matches Ok(n) ==> n@.slot == capslot@ && n@.parent == self@,
            r matches Err((err, ut, slot)) ==> err != KError::NoError && ut == self && slot@
                == capslot@ && err == verdict(last_answer(final(k)@)),
            r is Ok <==> verdict(last_answer(final(k)@)) == KError::NoError,
            retyped(
                old(k)@,
                self@.slot,
                ObjectType::NotificationObject,
                0,
                capslot@ as int,
                1,
                final(k)@,
            ),
            extends(old(k)@, final(k)@),
    {
        match self.retype_raw_one(ObjectType::NotificationObject, 0, capslot, k) {
            Ok(cap) => Ok(Notification::from_retyping(cap, self)),
            Err((err, capslot)) => Err((err, self, capslot)),
        }
    }
}

/// What a set of untypeds is: the window of slots whose untypeds are in it, their common
/// size, and the untyped that they were split from.
pub struct UntypedSetView {
    pub window: SlotWindow,
    pub size_bits: u8,
    pub parent: UntypedView,
}

/// The untypeds that one untyped was split into, as far as they have not been taken
/// out, together with that untyped.
pub struct UntypedSet {
    capset: CapSet,
    size_bits: u8,
    parent: Untyped,
}

impl UntypedSet {
    pub closed spec fn view(&self) -> UntypedSetView {
        UntypedSetView { window: self.capset@, size_bits: self.size_bits, parent: self.parent@ }
    }

    pub open spec fn wf(&self) -> bool {
        self@.window.wf()
    }

    /// Undoes the split: has the kernel delete the untypeds, all of which must be in the
    /// set, and returns the untyped they came from with the slots they were in.
    pub fn free<S: Syscalls>(self, k: &mut Machine<S>) -> (r: (Untyped, CapSlotSet))
        requires
            self.wf(),
            self@.window.is_full(),
            self@.window.capacity() > 0,
        ensures
            r.0@ == self@.parent,
            r.1.wf(),
            r.1@ == self@.window,
            deleted_all(old(k)@, self@.window.start, self@.window.end, final(k)@),
            extends(old(k)@, final(k)@),
    {
        (self.parent, self.capset.delete_all(k))
    }

    pub fn capacity(&self) -> (r: usize)
        requires
            self.wf(),
        ensures
            r == self@.window.capacity(),
    {
        self.capset.capacity()
    }

    pub fn count(&self) -> (r: usize)
        requires
            self.wf(),
        ensures
            r == self@.window.count(),
    {
        self.capset.count()
    }

    pub fn remaining(&self) -> (r: bool)
        requires
            self.wf(),
        ensures
            r == !self@.window.is_vacant(),
    {
        self.capset.remaining()
    }

    pub fn full(&self) -> (r: bool)
        requires
            self.wf(),
        ensures
            r == self@.window.is_full(),
    {
        self.capset.full()
    }

    /// Takes out the untyped in the lowest slot.
    pub fn take_front(&mut self) -> (r: Option<Untyped>)
        requires
            old(self).wf(),
        ensures
            final(self).wf(),
            old(self)@.window.is_vacant() ==> r is None && final(self)@ == old(self)@,
            !old(self)@.window.is_vacant() ==> r is Some && r.unwrap()@ == (UntypedView {
                slot: old(self)@.window.fillstart as usize,
                size_bits: old(self)@.size_bits,
            }) && final(self)@ == (UntypedSetView {
                window: SlotWindow {
                    fillstart: old(self)@.window.fillstart + 1,
                    ..old(self)@.window
                },
                ..old(self)@
            }),
    {
        if let Some(cap) = self.capset.take_front() {
            Some(Untyped { cap, size_bits: self.size_bits })
        } else {
            None
        }
    }

    /// Takes out the untyped in the highest slot.
    pub fn take_back(&mut self) -> (r: Option<Untyped>)
        requires
            old(self).wf(),
        ensures
            final(self).wf(),
            old(self)@.window.is_vacant() ==> r is None && final(self)@ == old(self)@,
            !old(self)@.window.is_vacant() ==> r is Some && r.unwrap()@ == (UntypedView {
                slot: (old(self)@.window.fillend - 1) as usize,
                size_bits: old(self)@.size_bits,
            }) && final(self)@ == (UntypedSetView {
                window: SlotWindow { fillend: old(self)@.window.fillend - 1, ..old(self)@.window },
                ..old(self)@
            }),
    {
        if let Some(cap) = self.capset.take_back() {
            Some(Untyped { cap, size_bits: self.size_bits })
        } else {
            None
        }
    }

    /// Puts back an untyped that was taken out of this set.
    pub fn readd(&mut self, slot: Untyped)
        requires
            old(self).wf(),
            slot@.size_bits == old(self)@.size_bits,
            old(self)@.window.accepts(slot@.slot as int),
        ensures
            final(self).wf(),
            final(self)@ == (UntypedSetView {
                window: old(self)@.window.with(slot@.slot as int),
                ..old(self)@
            }),
    {
        self.capset.readd(slot.cap);
    }
}

} // verus!
