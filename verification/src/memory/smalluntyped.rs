//! The allocator of 16-byte untypeds, of which notifications are made. It is refilled by
//! splitting a 4K untyped into 256 of them.
use vstd::prelude::*;
use crate::mantle::kio::extends;
use crate::kobject::steps::group_record;
use crate::crust::capalloc::{allocate_cap_slot, free_cap_slot, SlotAllocator};
use crate::crust::freelist::{first_fit, merge, take_n, take_one, unit};
use crate::intervals::Span;
use crate::kobject::steps::group_agreed;
use crate::mantle::calls::{agreed, lemma_agreed_parts};
use crate::kobject::{Notification, SlotWindow, Untyped, UntypedSet, UntypedSetView, UntypedView};
use crate::mantle::kernel::KError;
use crate::kobject::cap::deleted;
use crate::kobject::steps::retyped;
use crate::mantle::calls::verdict;
use crate::mantle::kernel::ObjectType;
use crate::mantle::kio::{last_answer, Machine, Syscalls};
use crate::memory::linkedlist::LinkedList;
use crate::memory::untyped::{
    all_of_size,
    allocate_untyped_4k,
    children,
    drain_into,
    free_untyped_4k,
    refilled,
    set_views,
    slots_for_refill,
    views,
    Pools,
    UntypedAllocator,
};

verus! {

broadcast use group_record, group_agreed;

/// The size of a fragment in bits: 16 bytes.
pub const FRAGMENT_BITS: u8 = 4;

/// What the allocator holds: the free fragments, and the sets left over from splitting.
pub struct Fragments {
    pub available: Seq<UntypedView>,
    pub expired: Seq<UntypedSetView>,
}

/// The fragments, the pools and the free slots after an empty list of fragments was
/// filled from the first 4K untyped of the small pool, and the fragment that is handed
/// out: the 4K untyped is split in 256, into the first range of `slots` that has as
/// many, and the last of the 256 leaves the list at once.
pub open spec fn restocked(before: Fragments, pools: Pools, slots: Seq<Span>) -> (
    Fragments,
    Pools,
    Seq<Span>,
    UntypedView,
) {
    let first = slots[first_fit(slots, 256)].start;
    let kids = children(first, 256, FRAGMENT_BITS);
    (
        Fragments {
            available: kids.skip(1),
            expired: seq![
                UntypedSetView {
                    window: SlotWindow {
                        start: first,
                        end: first + 256,
                        fillstart: first + 256,
                        fillend: first + 256,
                    },
                    size_bits: FRAGMENT_BITS,
                    parent: pools.small[0],
                },
            ] + before.expired,
        },
        Pools { small: pools.small.skip(1), ..pools },
        take_n(slots, 256),
        kids[0],
    )
}

/// The list of fragments can be filled from the small pool: the pool holds a 4K
/// untyped and some range of free slots has 256.
pub open spec fn can_restock(pools: Pools, slots: Seq<Span>) -> bool {
    pools.small.len() > 0 && first_fit(slots, 256) < slots.len()
}

/// The list of fragments can be filled although the small pool is empty: the large pool
/// holds a 2M untyped, and the free slots suffice to split it into 4K untypeds and one
/// of these into fragments.
pub open spec fn can_restock_from_large(pools: Pools, slots: Seq<Span>) -> bool {
    &&& pools.small.len() == 0
    &&& pools.large.len() > 0
    &&& slots_for_refill(slots)
    &&& first_fit(refilled(pools, slots).1, 256) < refilled(pools, slots).1.len()
}

/// Nothing is at hand to fill the list of fragments from: the small pool is empty, and
/// the large pool is empty too or no two slots are free to split a 2M untyped into.
pub open spec fn nothing_to_restock_from(pools: Pools, slots: Seq<Span>) -> bool {
    pools.small.len() == 0 && (pools.large.len() == 0 || first_fit(slots, 2) >= slots.len())
}

pub struct FragmentAllocator {
    available_fragments: LinkedList<Untyped>,
    expired_sets: LinkedList<UntypedSet>,
}

impl FragmentAllocator {
    pub closed spec fn view(&self) -> Fragments {
        Fragments {
            available: views(self.available_fragments@),
            expired: set_views(self.expired_sets@),
        }
    }

    /// Every free fragment has 16 bytes.
    pub open spec fn wf(&self) -> bool {
        all_of_size(self@.available, FRAGMENT_BITS)
    }

    /// An allocator without fragments.
    pub fn new() -> (r: FragmentAllocator)
        ensures
            r.wf(),
            r@.available.len() == 0,
            r@.expired.len() == 0,
    {
        FragmentAllocator {
            available_fragments: LinkedList::empty(),
            expired_sets: LinkedList::empty(),
        }
    }

    /// How many fragments are free.
    pub fn count(&self) -> (r: usize)
        requires
            self@.available.len() <= usize::MAX,
        ensures
            r == self@.available.len(),
    {
        self.available_fragments.len()
    }

    /// Splits a 4K untyped into 256 fragments. If that cannot be done, everything is put
    /// back as it was.
    fn refill<S: Syscalls>(
        &mut self,
        untyped: &mut UntypedAllocator,
        slots: &mut SlotAllocator,
        k: &mut Machine<S>,
    ) -> (r: Result<(), KError>)
        requires
            old(self).wf(),
            old(self)@.available.len() == 0,
            old(untyped).wf(),
            old(slots).wf(),
        ensures
            final(self).wf(),
            final(untyped).wf(),
            final(slots).wf(),
            final(slots).free().subset_of(old(slots).free()),
            r is Ok ==> final(self)@.available.len() == 256 && final(self)@.expired.len()
                == old(self)@.expired.len() + 1,
            r matches Err(err) ==> err != KError::NoError && final(self)@ == old(self)@,
            r is Err && old(untyped)@.small.len() > 0 ==> final(untyped)@ == old(untyped)@
                && final(slots).free() == old(slots).free(),
            extends(old(k)@, final(k)@),
            can_restock(old(untyped)@, old(slots)@) ==> (r is Ok <==> verdict(
                last_answer(final(k)@),
            ) == KError::NoError) && (r matches Err(err) ==> err == verdict(
                last_answer(final(k)@),
            )) && retyped(
                old(k)@,
                old(untyped)@.small[0].slot,
                ObjectType::UntypedObject,
                FRAGMENT_BITS,
                old(slots)@[first_fit(old(slots)@, 256)].start,
                256,
                final(k)@,
            ),
            can_restock_from_large(old(untyped)@, old(slots)@) && agreed(old(k)@, final(k)@) ==> r
                is Ok && final(slots)@ == take_n(refilled(old(untyped)@, old(slots)@).1, 256),
            nothing_to_restock_from(old(untyped)@, old(slots)@) ==> r == Err::<(), KError>(
                KError::NotEnoughMemory,
            ) && final(k)@ == old(k)@ && final(untyped)@ == old(untyped)@,
            old(untyped)@.small.len() > 0 && first_fit(old(slots)@, 256) >= old(slots)@.len() ==> r
                == Err::<(), KError>(KError::NotEnoughMemory) && final(k)@ == old(k)@
                    && final(slots)@ == old(slots)@,
            can_restock(old(untyped)@, old(slots)@) && r is Ok ==> final(untyped)@ == restocked(
                old(self)@,
                old(untyped)@,
                old(slots)@,
            ).1 && final(slots)@ == take_n(old(slots)@, 256) && final(self)@ == (Fragments {
                available: children(old(slots)@[first_fit(old(slots)@, 256)].start, 256, FRAGMENT_BITS),
                ..restocked(old(self)@, old(untyped)@, old(slots)@).0
            }),
    {
        let found = allocate_untyped_4k(untyped, slots, k);
        let ghost k1 = k@;
        let large_ut = found?;
        proof {
            vstd::arithmetic::power2::lemma2_to64();
        }
        let split = large_ut.split_calloc(8, slots, k);
        proof {
            lemma_agreed_parts(old(k)@, k1, k@);
        }
        match split {
            Ok(untypedset) => {
                let mut untypedset = untypedset;
                let ghost base = views(self.available_fragments@);
                drain_into(&mut self.available_fragments, &mut untypedset);
                assert(views(self.available_fragments@) =~= children(
                    untypedset@.window.start,
                    256,
                    FRAGMENT_BITS,
                )) by {
                    assert(base =~= Seq::<UntypedView>::empty());
                }
                let ghost stash = set_views(self.expired_sets@);
                let _ = self.expired_sets.pushmut(untypedset);
                assert(set_views(self.expired_sets@) =~= seq![untypedset@] + stash);
                Ok(())
            },
            Err((err, large_ut)) => {
                free_untyped_4k(untyped, large_ut);
                proof {
                    if old(untyped)@.small.len() > 0 {
                        assert(untyped@.small =~= old(untyped)@.small);
                    }
                }
                Err(err)
            },
        }
    }

    /// Takes a fragment, after a refill if none is free.
    fn allocate<S: Syscalls>(
        &mut self,
        untyped: &mut UntypedAllocator,
        slots: &mut SlotAllocator,
        k: &mut Machine<S>,
    ) -> (r: Result<Untyped, KError>)
        requires
            old(self).wf(),
            old(untyped).wf(),
            old(slots).wf(),
        ensures
            final(self).wf(),
            final(untyped).wf(),
            final(slots).wf(),
            final(slots).free().subset_of(old(slots).free()),
            old(self)@.available.len() > 0 ==> r is Ok && r.unwrap()@ == old(self)@.available[0]
                && final(self)@ == (Fragments {
                available: old(self)@.available.skip(1),
                ..old(self)@
            }) && final(untyped)@ == old(untyped)@ && final(slots)@ == old(slots)@,
            r matches Ok(ut) ==> ut@.size_bits == FRAGMENT_BITS,
            r matches Err(err) ==> err != KError::NoError && final(self)@ == old(self)@,
            r is Ok && old(self)@.available.len() == 0 ==> final(self)@.available.len() == 255,
            old(self)@.available.len() > 0 ==> final(k)@ == old(k)@,
            extends(old(k)@, final(k)@),
            r is Err && old(untyped)@.small.len() > 0 ==> final(untyped)@ == old(untyped)@
                && final(slots).free() == old(slots).free(),
            old(self)@.available.len() == 0 && can_restock(old(untyped)@, old(slots)@) ==> (r is Ok
                <==> verdict(last_answer(final(k)@)) == KError::NoError) && (r matches Err(err)
                ==> err == verdict(last_answer(final(k)@))) && retyped(
                old(k)@,
                old(untyped)@.small[0].slot,
                ObjectType::UntypedObject,
                FRAGMENT_BITS,
                old(slots)@[first_fit(old(slots)@, 256)].start,
                256,
                final(k)@,
            ) && (r is Ok ==> (final(self)@, final(untyped)@, final(slots)@, r.unwrap()@)
                == restocked(old(self)@, old(untyped)@, old(slots)@)),
            old(self)@.available.len() == 0 && can_restock_from_large(old(untyped)@, old(slots)@)
                && agreed(old(k)@, final(k)@) ==> r is Ok && final(slots)@ == take_n(
                refilled(old(untyped)@, old(slots)@).1,
                256,
            ),
            old(self)@.available.len() == 0 && nothing_to_restock_from(old(untyped)@, old(slots)@)
                ==> r == Err::<Untyped, KError>(KError::NotEnoughMemory) && final(k)@ == old(k)@
                && final(untyped)@ == old(untyped)@,
            old(self)@.available.len() == 0 && old(untyped)@.small.len() > 0 && first_fit(
                old(slots)@,
                256,
            ) >= old(slots)@.len() ==> r == Err::<Untyped, KError>(KError::NotEnoughMemory)
                && final(k)@ == old(k)@ && final(slots)@ == old(slots)@,
    {
        if self.available_fragments.is_empty() {
            self.refill(untyped, slots, k)?;
        }
        let ghost before = views(self.available_fragments@);
        match self.available_fragments.popmut() {
            Some(ut) => {
                assert(views(self.available_fragments@) =~= before.skip(1));
                assert(before[0] == ut@);
                Ok(ut)
            },
            None => Err(KError::NotEnoughMemory),
        }
    }

    /// Takes a fragment back.
    fn free(&mut self, ut: Untyped)
        requires
            old(self).wf(),
            ut@.size_bits == FRAGMENT_BITS,
        ensures
            final(self).wf(),
            final(self)@ == (Fragments {
                available: seq![ut@] + old(self)@.available,
                ..old(self)@
            }),
    {
        let ghost before = views(self.available_fragments@);
        let _ = self.available_fragments.pushmut(ut);
        assert(views(self.available_fragments@) =~= seq![ut@] + before);
    }
}

/// Takes a 16-byte untyped.
pub fn allocate_untyped_16b<S: Syscalls>(
    fragments: &mut FragmentAllocator,
    untyped: &mut UntypedAllocator,
    slots: &mut SlotAllocator,
    k: &mut Machine<S>,
) -> (r: Result<Untyped, KError>)
    requires
        old(fragments).wf(),
        old(untyped).wf(),
        old(slots).wf(),
    ensures
        final(fragments).wf(),
        final(untyped).wf(),
        final(slots).wf(),
        final(slots).free().subset_of(old(slots).free()),
        old(fragments)@.available.len() > 0 ==> r is Ok && r.unwrap()@
            == old(fragments)@.available[0] && final(fragments)@ == (Fragments {
            available: old(fragments)@.available.skip(1),
            ..old(fragments)@
        }) && final(untyped)@ == old(untyped)@ && final(slots)@ == old(slots)@,
        r matches Ok(ut) ==> ut@.size_bits == FRAGMENT_BITS,
        r matches Err(err) ==> err != KError::NoError && final(fragments)@ == old(fragments)@,
        old(fragments)@.available.len() > 0 ==> final(k)@ == old(k)@,
        extends(old(k)@, final(k)@),
        r is Err && old(untyped)@.small.len() > 0 ==> final(untyped)@ == old(untyped)@
            && final(slots).free() == old(slots).free(),
        old(fragments)@.available.len() == 0 && can_restock(old(untyped)@, old(slots)@) ==> (r is Ok
            <==> verdict(last_answer(final(k)@)) == KError::NoError) && (r matches Err(err) ==> err
            == verdict(last_answer(final(k)@))) && retyped(
            old(k)@,
            old(untyped)@.small[0].slot,
            ObjectType::UntypedObject,
            FRAGMENT_BITS,
            old(slots)@[first_fit(old(slots)@, 256)].start,
            256,
            final(k)@,
        ) && (r is Ok ==> (final(fragments)@, final(untyped)@, final(slots)@, r.unwrap()@)
            == restocked(old(fragments)@, old(untyped)@, old(slots)@)),
        old(fragments)@.available.len() == 0 && can_restock_from_large(old(untyped)@, old(slots)@)
            && agreed(old(k)@, final(k)@) ==> r is Ok && final(slots)@ == take_n(
            refilled(old(untyped)@, old(slots)@).1,
            256,
        ),
        old(fragments)@.available.len() == 0 && nothing_to_restock_from(old(untyped)@, old(slots)@)
            ==> r == Err::<Untyped, KError>(KError::NotEnoughMemory) && final(k)@ == old(k)@
            && final(untyped)@ == old(untyped)@,
        old(fragments)@.available.len() == 0 && old(untyped)@.small.len() > 0 && first_fit(
            old(slots)@,
            256,
        ) >= old(slots)@.len() ==> r == Err::<Untyped, KError>(KError::NotEnoughMemory) && final(k)@
            == old(k)@ && final(slots)@ == old(slots)@,
{
    fragments.allocate(untyped, slots, k)
}

/// Gives a 16-byte untyped back.
pub fn free_untyped_16b(fragments: &mut FragmentAllocator, ut: Untyped)
    requires
        old(fragments).wf(),
        ut@.size_bits == FRAGMENT_BITS,
    ensures
        final(fragments).wf(),
        final(fragments)@ == (Fragments {
            available: seq![ut@] + old(fragments)@.available,
            ..old(fragments)@
        }),
{
    fragments.free(ut)
}

/// Makes a notification: takes a 16-byte untyped and a slot and has the kernel retype
/// the one into the other. If any step fails, what was taken goes back.
pub fn allocate_notification<S: Syscalls>(
    fragments: &mut FragmentAllocator,
    untyped: &mut UntypedAllocator,
    slots: &mut SlotAllocator,
    k: &mut Machine<S>,
) -> (r: Result<Notification, KError>)
    requires
        old(fragments).wf(),
        old(untyped).wf(),
        old(slots).wf(),
    ensures
        final(fragments).wf(),
        final(untyped).wf(),
        final(slots).wf(),
        final(slots).free().subset_of(old(slots).free()),
        r matches Ok(n) ==> n@.parent.size_bits == FRAGMENT_BITS && !final(slots).free().contains(
            n@.slot as int,
        ) && n@.slot < usize::MAX,
        r is Ok && old(fragments)@.available.len() > 0 ==> r.unwrap()@.parent
            == old(fragments)@.available[0] && r.unwrap()@.slot == old(slots)@[0].start
            && final(fragments)@
            == (Fragments { available: old(fragments)@.available.skip(1), ..old(fragments)@ })
            && final(slots)@ == take_one(old(slots)@) && final(untyped)@ == old(untyped)@,
        r matches Err(err) ==> err != KError::NoError,
        r is Err && old(fragments)@.available.len() > 0 ==> final(fragments)@ == old(fragments)@
            && final(slots).free() == old(slots).free() && final(untyped)@ == old(untyped)@,
        r is Err && old(fragments)@.available.len() > 0 && old(slots)@.len() > 0 ==> final(slots)@
            == merge(take_one(old(slots)@), unit(old(slots)@[0].start)),
        old(fragments)@.available.len() > 0 && old(slots)@.len() == 0 ==> r == Err::<
            Notification,
            KError,
        >(KError::NotEnoughMemory),
        old(fragments)@.available.len() > 0 && old(slots)@.len() == 0 ==> final(k)@ == old(k)@,
        old(fragments)@.available.len() > 0 && old(slots)@.len() > 0 ==> (r is Ok <==> verdict(
            last_answer(final(k)@),
        ) == KError::NoError) && (r matches Err(err) ==> err == verdict(last_answer(final(k)@)))
            && retyped(
            old(k)@,
            old(fragments)@.available[0].slot,
            ObjectType::NotificationObject,
            0,
            old(slots)@[0].start,
            1,
            final(k)@,
        ),
        extends(old(k)@, final(k)@),
        old(fragments)@.available.len() == 0 && can_restock(old(untyped)@, old(slots)@) && take_n(
            old(slots)@,
            256,
        ).len() > 0 && agreed(old(k)@, final(k)@) ==> r is Ok && r.unwrap()@.parent == restocked(
            old(fragments)@,
            old(untyped)@,
            old(slots)@,
        ).3 && r.unwrap()@.slot == take_n(old(slots)@, 256)[0].start && (
            final(fragments)@,
            final(untyped)@,
            final(slots)@,
        ) == (
            restocked(old(fragments)@, old(untyped)@, old(slots)@).0,
            restocked(old(fragments)@, old(untyped)@, old(slots)@).1,
            take_one(take_n(old(slots)@, 256)),
        ),
        old(fragments)@.available.len() == 0 && can_restock_from_large(old(untyped)@, old(slots)@)
            && take_n(refilled(old(untyped)@, old(slots)@).1, 256).len() > 0 && agreed(
            old(k)@,
            final(k)@,
        ) ==> r is Ok && r.unwrap()@.slot == take_n(
            refilled(old(untyped)@, old(slots)@).1,
            256,
        )[0].start,
        old(fragments)@.available.len() == 0 && nothing_to_restock_from(old(untyped)@, old(slots)@)
            ==> r == Err::<Notification, KError>(KError::NotEnoughMemory) && final(k)@ == old(k)@
            && final(untyped)@ == old(untyped)@ && final(fragments)@ == old(fragments)@,
        old(fragments)@.available.len() == 0 && old(untyped)@.small.len() > 0 && first_fit(
            old(slots)@,
            256,
        ) >= old(slots)@.len() ==> r == Err::<Notification, KError>(KError::NotEnoughMemory)
            && final(k)@ == old(k)@ && final(slots)@ == old(slots)@ && final(untyped)@
                == old(untyped)@ && final(fragments)@ == old(fragments)@,
{
    let found = allocate_untyped_16b(fragments, untyped, slots, k);
    let ghost k1 = k@;
    proof {
        lemma_agreed_parts(old(k)@, k1, k1);
    }
    let ut: Untyped = found?;
    match allocate_cap_slot(slots) {
        Ok(slot) => {
            match ut.become_notification(slot, k) {
                Ok(noti) => {
                    proof {
                        lemma_agreed_parts(old(k)@, k1, k@);
                    }
                    Ok(noti)
                },
                Err((err, ut, slot)) => {
                    free_cap_slot(slots, slot);
                    free_untyped_16b(fragments, ut);
                    proof {
                        lemma_agreed_parts(old(k)@, k1, k@);
                        if old(fragments)@.available.len() > 0 {
                            assert(slots.free() =~= old(slots).free());
                            assert(fragments@.available =~= old(fragments)@.available);
                        }
                    }
                    Err(err)
                },
            }
        },
        Err(err) => {
            free_untyped_16b(fragments, ut);
            proof {
                if old(fragments)@.available.len() > 0 {
                    assert(fragments@.available =~= old(fragments)@.available);
                }
            }
            Err(err)
        },
    }
}

/// Gives a notification back: the kernel deletes it, its slot goes to the slot
/// allocator and its untyped to the fragments.
pub fn free_notification<S: Syscalls>(
    fragments: &mut FragmentAllocator,
    slots: &mut SlotAllocator,
    not: Notification,
    k: &mut Machine<S>,
)
    requires
        old(fragments).wf(),
        old(slots).wf(),
        not@.parent.size_bits == FRAGMENT_BITS,
        not@.slot < usize::MAX,
        !old(slots).free().contains(not@.slot as int),
    ensures
        final(fragments).wf(),
        final(slots).wf(),
        final(fragments)@ == (Fragments {
            available: seq![not@.parent] + old(fragments)@.available,
            ..old(fragments)@
        }),
        final(slots)@ == merge(old(slots)@, unit(not@.slot as int)),
        final(slots).free() == old(slots).free().insert(not@.slot as int),
        deleted(old(k)@, not@.slot, final(k)@),
        extends(old(k)@, final(k)@),
{
    let (ut, slot) = not.free(k);
    free_cap_slot(slots, slot);
    free_untyped_16b(fragments, ut)
}

} // verus!
