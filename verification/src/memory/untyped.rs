//! The allocator of untyped memory: pools of 4K and of 2M untypeds, filled from the boot
//! untypeds and from each other by splitting.
use vstd::prelude::*;
use crate::mantle::kio::extends;
use crate::kobject::steps::group_record;
use vstd::arithmetic::power2::pow2;
use crate::crust::capalloc::{
    allocate_cap_slot,
    allocate_cap_slots,
    free_cap_slot,
    free_cap_slots,
    SlotAllocator,
};
use crate::crust::freelist::{first_fit, lemma_take, points, taken_and_back};
use crate::kobject::{
    CapRange,
    Page4K,
    SlotWindow,
    Untyped,
    UntypedSet,
    UntypedSetView,
    UntypedView,
};
use crate::mantle::kernel;
use crate::mantle::kernel::{KError, UntypedDesc};
use crate::kobject::cap::deleted;
use crate::kobject::steps::{group_agreed, lemma_retyped_len, retyped, retypes_agreed};
use crate::mantle::calls::{
    agreed,
    lemma_agreed_parts,
    lemma_not_agreed_refused,
    lemma_refused_extends,
    refused_near_end,
};
use crate::mantle::calls::verdict;
use crate::mantle::kernel::ObjectType;
use crate::mantle::kio::{last_answer, Event, Machine, Syscalls};
use crate::memory::linkedlist::LinkedList;

verus! {

broadcast use group_record, group_agreed;

/// The pools of the allocator: the 4K untypeds, the 2M untypeds, and the sets left over
/// from splitting.
pub struct Pools {
    pub small: Seq<UntypedView>,
    pub large: Seq<UntypedView>,
    pub stashed: Seq<UntypedSetView>,
}

/// The untypeds of `count` slots from `start` on, each of `size_bits` bits, highest slot
/// first: the order in which the children of a split lie in a pool.
pub open spec fn children(start: int, count: int, size_bits: u8) -> Seq<UntypedView> {
    Seq::new(
        count as nat,
        |i: int| UntypedView { slot: (start + count - 1 - i) as usize, size_bits },
    )
}

/// Every untyped of the pool has `size_bits` bits.
pub open spec fn all_of_size(pool: Seq<UntypedView>, size_bits: u8) -> bool {
    forall|i: int| 0 <= i < pool.len() ==> (#[trigger] pool[i]).size_bits == size_bits
}

/// The views of a list of untypeds.
pub open spec fn views(list: Seq<Untyped>) -> Seq<UntypedView> {
    list.map_values(|u: Untyped| u@)
}

/// The views of a list of sets of untypeds.
pub open spec fn set_views(list: Seq<UntypedSet>) -> Seq<UntypedSetView> {
    list.map_values(|u: UntypedSet| u@)
}

/// What `print_info` reports: the numbers of 2M and of 4K untypeds, and what they amount
/// to in kilobytes and megabytes.
pub struct MemoryInfo {
    pub large_blocks: usize,
    pub large_kb: usize,
    pub small_blocks: usize,
    pub small_kb: usize,
    pub total_kb: usize,
    pub total_mb: usize,
}

pub struct UntypedAllocator {
    small_pages: LinkedList<Untyped>,
    large_pages: LinkedList<Untyped>,
    stashed: LinkedList<UntypedSet>,
}

/// Moves the untypeds of `set`, lowest slot first, to the front of `pool`.
pub fn drain_into(pool: &mut LinkedList<Untyped>, set: &mut UntypedSet)
    requires
        old(set).wf(),
    ensures
        final(set).wf(),
        final(set)@ == (UntypedSetView {
            window: SlotWindow { fillstart: old(set)@.window.fillend, ..old(set)@.window },
            ..old(set)@
        }),
        views(final(pool)@) == children(
            old(set)@.window.fillstart,
            old(set)@.window.count(),
            old(set)@.size_bits,
        ) + views(old(pool)@),
{
    let ghost w = set@.window;
    let ghost bits = set@.size_bits;
    let ghost base = views(pool@);
    assert(views(pool@) =~= children(w.fillstart, 0, bits) + base);
    loop
        invariant
            set.wf(),
            set@.window.start == w.start,
            set@.window.end == w.end,
            set@.window.fillend == w.fillend,
            w.fillstart <= set@.window.fillstart <= w.fillend,
            set@.size_bits == bits,
            set@.parent == old(set)@.parent,
            w.wf(),
            views(pool@) == children(w.fillstart, set@.window.fillstart - w.fillstart, bits) + base,
        ensures
            set@.window.fillstart == w.fillend,
        decreases set@.window.count(),
    {
        let ghost done = set@.window.fillstart - w.fillstart;
        match set.take_front() {
            Some(ut) => {
                let ghost before = views(pool@);
                let _ = pool.pushmut(ut);
                assert(views(pool@) =~= seq![ut@] + before);
                assert(views(pool@) =~= children(w.fillstart, done + 1, bits) + base);
            },
            None => {
                break ;
            },
        }
    }
}

impl UntypedAllocator {
    pub closed spec fn view(&self) -> Pools {
        Pools {
            small: views(self.small_pages@),
            large: views(self.large_pages@),
            stashed: set_views(self.stashed@),
        }
    }

    /// The small pool holds 4K untypeds only, the large pool 2M untypeds only.
    pub open spec fn wf(&self) -> bool {
        &&& all_of_size(self@.small, kernel::PAGE_4K_BITS)
        &&& all_of_size(self@.large, kernel::PAGE_2M_BITS)
    }

    /// An allocator with empty pools.
    pub fn new() -> (r: UntypedAllocator)
        ensures
            r.wf(),
            r@.small.len() == 0,
            r@.large.len() == 0,
            r@.stashed.len() == 0,
    {
        UntypedAllocator {
            small_pages: LinkedList::empty(),
            large_pages: LinkedList::empty(),
            stashed: LinkedList::empty(),
        }
    }

    /// Splits `ut` into `2^goal` children in slots from `slots`, puts the children into
    /// the small pool (`small`) or the large one, and keeps the emptied set.
    fn add_split<S: Syscalls>(
        &mut self,
        ut: Untyped,
        goal: u8,
        small: bool,
        slots: &mut SlotAllocator,
        k: &mut Machine<S>,
    ) -> (r: Result<(), (KError, Untyped)>)
        requires
            old(self).wf(),
            old(slots).wf(),
            0 < goal <= 8,
            small ==> ut@.size_bits == kernel::PAGE_4K_BITS + goal,
            !small ==> ut@.size_bits == kernel::PAGE_2M_BITS + goal,
        ensures
            final(self).wf(),
            final(slots).wf(),
            r is Ok ==> split_into(old(self)@, old(slots)@, ut@, goal, small, final(self)@)
                && final(slots)@ == crate::crust::freelist::take_n(
                old(slots)@,
                pow2(goal as nat) as int,
            ),
            r matches Err((err, back)) ==> err != KError::NoError && back == ut && final(self)@
                == old(self)@ && final(slots).free() == old(slots).free(),
            first_fit(old(slots)@, pow2(goal as nat) as int) >= old(slots)@.len()
                ==> (r matches Err(
                (KError::NotEnoughMemory, _),
            )) && final(k)@ == old(k)@ && final(slots)@ == old(slots)@,
            first_fit(old(slots)@, pow2(goal as nat) as int) < old(slots)@.len() && r is Err
                ==> final(slots)@ == taken_and_back(old(slots)@, pow2(goal as nat) as int),
            r is Ok <==> agreed(old(k)@, final(k)@) && split_pools(
                old(self)@,
                old(slots)@,
                ut@,
                goal,
                small,
            ) is Some,
            r is Ok ==> (final(self)@, final(slots)@) == split_pools(
                old(self)@,
                old(slots)@,
                ut@,
                goal,
                small,
            ).unwrap(),
            first_fit(old(slots)@, pow2(goal as nat) as int) < old(slots)@.len() ==> (r is Ok
                <==> verdict(last_answer(final(k)@)) == KError::NoError) && (r matches Err(
                (err, _),
            ) ==> err == verdict(last_answer(final(k)@))) && retyped(
                old(k)@,
                ut@.slot,
                ObjectType::UntypedObject,
                (ut@.size_bits - goal) as u8,
                old(slots)@[first_fit(old(slots)@, pow2(goal as nat) as int)].start,
                pow2(goal as nat) as int,
                final(k)@,
            ),
            final(slots).free().subset_of(old(slots).free()),
            extends(old(k)@, final(k)@),
    {
        proof {
            vstd::arithmetic::power2::lemma_pow2_pos(goal as nat);
            if first_fit(slots@, pow2(goal as nat) as int) < slots@.len() {
                lemma_take(slots@, pow2(goal as nat) as int);
            }
        }
        let mut uts = match ut.split_calloc(goal, slots, k) {
            Ok(uts) => uts,
            Err((err, ut)) => {
                return Err((err, ut));
            },
        };
        let ghost w = uts@.window;
        if small {
            drain_into(&mut self.small_pages, &mut uts);
        } else {
            drain_into(&mut self.large_pages, &mut uts);
        }
        let ghost stash = set_views(self.stashed@);
        let _ = self.stashed.pushmut(uts);
        assert(set_views(self.stashed@) =~= seq![uts@] + stash);
        Ok(())
    }

    /// Adds an untyped of more than 2M and at most 512M: it is split into 2M untypeds.
    pub fn add_huge_block<S: Syscalls>(&mut self, ut: Untyped, slots: &mut SlotAllocator, k: &mut Machine<S>) -> (r:
        Result<(), (KError, Untyped)>)
        requires
            old(self).wf(),
            old(slots).wf(),
            kernel::PAGE_2M_BITS < ut@.size_bits <= kernel::PAGE_2M_BITS
                + kernel::FAN_OUT_LIMIT_BITS,
        ensures
            final(self).wf(),
            final(slots).wf(),
            r is Ok ==> split_into(
                old(self)@,
                old(slots)@,
                ut@,
                (ut@.size_bits - kernel::PAGE_2M_BITS) as u8,
                false,
                final(self)@,
            ) && final(slots)@ == crate::crust::freelist::take_n(
                old(slots)@,
                pow2((ut@.size_bits - kernel::PAGE_2M_BITS) as nat) as int,
            ),
            r matches Err((err, back)) ==> err != KError::NoError && back == ut && final(self)@
                == old(self)@ && final(slots).free() == old(slots).free(),
            final(slots).free().subset_of(old(slots).free()),
            first_fit(old(slots)@, pow2((ut@.size_bits - kernel::PAGE_2M_BITS) as nat) as int) >= old(slots)@.len() ==> (r matches Err((KError::NotEnoughMemory, _))) && final(k)@ == old(k)@
                && final(slots)@ == old(slots)@,
            first_fit(old(slots)@, pow2((ut@.size_bits - kernel::PAGE_2M_BITS) as nat) as int) < old(slots)@.len()
                && r is Err ==> final(slots)@ == taken_and_back(
                old(slots)@,
                pow2((ut@.size_bits - kernel::PAGE_2M_BITS) as nat) as int,
            ),
            r is Err ==> r->Err_0.0 == (if agreed(old(k)@, final(k)@) {
                KError::NotEnoughMemory
            } else {
                verdict(last_answer(final(k)@))
            }) && final(slots)@ == (if agreed(old(k)@, final(k)@) {
                old(slots)@
            } else {
                taken_and_back(old(slots)@, pow2((ut@.size_bits - kernel::PAGE_2M_BITS) as nat) as int)
            }),
            r is Ok <==> agreed(old(k)@, final(k)@) && added(old(self)@, old(slots)@, ut@) is Some,
            r is Ok ==> (final(self)@, final(slots)@) == added(
                old(self)@,
                old(slots)@,
                ut@,
            ).unwrap(),
            first_fit(old(slots)@, pow2((ut@.size_bits - kernel::PAGE_2M_BITS) as nat) as int) < old(slots)@.len() ==> (r is Ok <==> verdict(last_answer(final(k)@)) == KError::NoError) && (r
                matches Err((err, _)) ==> err == verdict(last_answer(final(k)@))) && retyped(
                old(k)@,
                ut@.slot,
                ObjectType::UntypedObject,
                kernel::PAGE_2M_BITS,
                old(slots)@[first_fit(
                    old(slots)@,
                    pow2((ut@.size_bits - kernel::PAGE_2M_BITS) as nat) as int,
                )].start,
                pow2((ut@.size_bits - kernel::PAGE_2M_BITS) as nat) as int,
                final(k)@,
            ),
            extends(old(k)@, final(k)@),
    {
        let goal_split_count = ut.size_bits() - kernel::PAGE_2M_BITS;
        self.add_split(ut, goal_split_count, false, slots, k)
    }

    /// Adds a 2M untyped to the large pool.
    pub fn add_large_page(&mut self, ut: Untyped)
        requires
            old(self).wf(),
            ut@.size_bits == kernel::PAGE_2M_BITS,
        ensures
            final(self).wf(),
            final(self)@ == (Pools { large: seq![ut@] + old(self)@.large, ..old(self)@ }),
    {
        let ghost before = views(self.large_pages@);
        let _ = self.large_pages.pushmut(ut);
        assert(views(self.large_pages@) =~= seq![ut@] + before);
    }

    /// Adds an untyped of more than 4K and less than 2M: it is split into 4K untypeds.
    pub fn add_midsize_block<S: Syscalls>(
        &mut self,
        ut: Untyped,
        slots: &mut SlotAllocator,
        k: &mut Machine<S>,
    ) -> (r: Result<(), (KError, Untyped)>)
        requires
            old(self).wf(),
            old(slots).wf(),
            kernel::PAGE_4K_BITS < ut@.size_bits < kernel::PAGE_2M_BITS,
        ensures
            final(self).wf(),
            final(slots).wf(),
            r is Ok ==> split_into(
                old(self)@,
                old(slots)@,
                ut@,
                (ut@.size_bits - kernel::PAGE_4K_BITS) as u8,
                true,
                final(self)@,
            ) && final(slots)@ == crate::crust::freelist::take_n(
                old(slots)@,
                pow2((ut@.size_bits - kernel::PAGE_4K_BITS) as nat) as int,
            ),
            r matches Err((err, back)) ==> err != KError::NoError && back == ut && final(self)@
                == old(self)@ && final(slots).free() == old(slots).free(),
            final(slots).free().subset_of(old(slots).free()),
            first_fit(old(slots)@, pow2((ut@.size_bits - kernel::PAGE_4K_BITS) as nat) as int) >= old(slots)@.len() ==> (r matches Err((KError::NotEnoughMemory, _))) && final(k)@ == old(k)@
                && final(slots)@ == old(slots)@,
            first_fit(old(slots)@, pow2((ut@.size_bits - kernel::PAGE_4K_BITS) as nat) as int) < old(slots)@.len()
                && r is Err ==> final(slots)@ == taken_and_back(
                old(slots)@,
                pow2((ut@.size_bits - kernel::PAGE_4K_BITS) as nat) as int,
            ),
            r is Err ==> r->Err_0.0 == (if agreed(old(k)@, final(k)@) {
                KError::NotEnoughMemory
            } else {
                verdict(last_answer(final(k)@))
            }) && final(slots)@ == (if agreed(old(k)@, final(k)@) {
                old(slots)@
            } else {
                taken_and_back(old(slots)@, pow2((ut@.size_bits - kernel::PAGE_4K_BITS) as nat) as int)
            }),
            r is Ok <==> agreed(old(k)@, final(k)@) && added(old(self)@, old(slots)@, ut@) is Some,
            r is Ok ==> (final(self)@, final(slots)@) == added(
                old(self)@,
                old(slots)@,
                ut@,
            ).unwrap(),
            first_fit(old(slots)@, pow2((ut@.size_bits - kernel::PAGE_4K_BITS) as nat) as int) < old(slots)@.len() ==> (r is Ok <==> verdict(last_answer(final(k)@)) == KError::NoError) && (r
                matches Err((err, _)) ==> err == verdict(last_answer(final(k)@))) && retyped(
                old(k)@,
                ut@.slot,
                ObjectType::UntypedObject,
                kernel::PAGE_4K_BITS,
                old(slots)@[first_fit(
                    old(slots)@,
                    pow2((ut@.size_bits - kernel::PAGE_4K_BITS) as nat) as int,
                )].start,
                pow2((ut@.size_bits - kernel::PAGE_4K_BITS) as nat) as int,
                final(k)@,
            ),
            extends(old(k)@, final(k)@),
    {
        let goal_split_count = ut.size_bits() - kernel::PAGE_4K_BITS;
        self.add_split(ut, goal_split_count, true, slots, k)
    }

    /// Adds a 4K untyped to the small pool.
    pub fn add_small_page(&mut self, ut: Untyped)
        requires
            old(self).wf(),
            ut@.size_bits == kernel::PAGE_4K_BITS,
        ensures
            final(self).wf(),
            final(self)@ == (Pools { small: seq![ut@] + old(self)@.small, ..old(self)@ }),
    {
        let ghost before = views(self.small_pages@);
        let _ = self.small_pages.pushmut(ut);
        assert(views(self.small_pages@) =~= seq![ut@] + before);
    }

    /// Takes a 2M untyped from the large pool.
    pub fn allocate_large_page(&mut self) -> (r: Result<Untyped, KError>)
        requires
            old(self).wf(),
        ensures
            final(self).wf(),
            old(self)@.large.len() == 0 ==> r == Err::<Untyped, KError>(KError::NotEnoughMemory)
                && final(self)@ == old(self)@,
            old(self)@.large.len() > 0 ==> r is Ok && r.unwrap()@ == old(self)@.large[0]
                && final(self)@ == (Pools { large: old(self)@.large.skip(1), ..old(self)@ }),
    {
        let ghost before = views(self.large_pages@);
        match self.large_pages.popmut() {
            Some(ut) => {
                assert(views(self.large_pages@) =~= before.skip(1));
                assert(before[0] == ut@);
                Ok(ut)
            },
            None => Err(KError::NotEnoughMemory),
        }
    }

    /// Adds an untyped of more than 2M: one of more than 512M is first split into
    /// untypeds of 512M, and those into 2M untypeds. When a part cannot be split, the parts
    /// before it stay in the pool and that part comes back with the error.
    pub fn add_oversize_block<S: Syscalls>(
        &mut self,
        ut: Untyped,
        slots: &mut SlotAllocator,
        k: &mut Machine<S>,
    ) -> (r: Result<(), (KError, Untyped)>)
        requires
            old(self).wf(),
            old(slots).wf(),
            kernel::PAGE_2M_BITS < ut@.size_bits <= kernel::PAGE_2M_BITS + 2
                * kernel::FAN_OUT_LIMIT_BITS,
        ensures
            final(self).wf(),
            final(slots).wf(),
            final(slots).free().subset_of(old(slots).free()),
            final(self)@.small == old(self)@.small,
            r is Ok ==> final(self)@.large.len() == old(self)@.large.len() + pow2(
                (ut@.size_bits - kernel::PAGE_2M_BITS) as nat,
            ),
            r matches Err((err, back)) ==> err != KError::NoError && back@.size_bits
                <= ut@.size_bits,
            r is Err ==> final(self)@.large.len() < old(self)@.large.len() + pow2(
                (ut@.size_bits - kernel::PAGE_2M_BITS) as nat,
            ),
            extends(old(k)@, final(k)@),
            r is Ok <==> agreed(old(k)@, final(k)@) && added(old(self)@, old(slots)@, ut@) is Some,
            r is Ok ==> (final(self)@, final(slots)@) == added(
                old(self)@,
                old(slots)@,
                ut@,
            ).unwrap(),
            r is Err && ut@.size_bits <= kernel::PAGE_2M_BITS + kernel::FAN_OUT_LIMIT_BITS
                ==> r->Err_0.1 == ut && final(self)@ == old(self)@ && r->Err_0.0
                == (if agreed(old(k)@, final(k)@) {
                KError::NotEnoughMemory
            } else {
                verdict(last_answer(final(k)@))
            }) && final(slots)@ == (if agreed(old(k)@, final(k)@) {
                old(slots)@
            } else {
                taken_and_back(old(slots)@, pow2((ut@.size_bits - kernel::PAGE_2M_BITS) as nat) as int)
            }),
            r is Err && ut@.size_bits > kernel::PAGE_2M_BITS + kernel::FAN_OUT_LIMIT_BITS
                ==> oversize_failed(
                old(self)@,
                old(slots)@,
                ut@,
                old(k)@,
                final(k)@,
                final(self)@,
                final(slots)@,
                r->Err_0.1@,
                r->Err_0.0,
            ),
    {
        let ghost total = pow2((ut@.size_bits - kernel::PAGE_2M_BITS) as nat);
        proof {
            vstd::arithmetic::power2::lemma_pow2_pos((ut@.size_bits - kernel::PAGE_2M_BITS) as nat);
        }
        if ut.size_bits() <= kernel::PAGE_2M_BITS + kernel::FAN_OUT_LIMIT_BITS {
            let ghost goal = (ut@.size_bits - kernel::PAGE_2M_BITS) as nat;
            let r = self.add_huge_block(ut, slots, k);
            return r;
        }
        let goal_split_count = ut.size_bits() - (kernel::PAGE_2M_BITS + kernel::FAN_OUT_LIMIT_BITS);
        proof {
            vstd::arithmetic::power2::lemma_pow2_adds(
                goal_split_count as nat,
                kernel::FAN_OUT_LIMIT_BITS as nat,
            );
            vstd::arithmetic::power2::lemma_pow2_pos(goal_split_count as nat);
            vstd::arithmetic::power2::lemma_pow2_pos(kernel::FAN_OUT_LIMIT_BITS as nat);
        }
        let ghost whole = ut@;
        let split = ut.split_calloc(goal_split_count, slots, k);
        proof {
            vstd::arithmetic::power2::lemma2_to64();
            if first_fit(old(slots)@, pow2(goal_split_count as nat) as int) < old(slots)@.len() {
                lemma_retyped_len(
                    old(k)@,
                    whole.slot,
                    ObjectType::UntypedObject,
                    (whole.size_bits - goal_split_count) as u8,
                    old(slots)@[first_fit(
                        old(slots)@,
                        pow2(goal_split_count as nat) as int,
                    )].start,
                    pow2(goal_split_count as nat) as int,
                    k@,
                );
            }
        }
        let mut uts = match split {
            Ok(uts) => uts,
            Err((err, ut)) => {
                return Err((err, ut));
            },
        };
        proof {
            lemma_take(old(slots)@, pow2(goal_split_count as nat) as int);
        }
        let ghost w = uts@.window;
        let ghost per = pow2(kernel::FAN_OUT_LIMIT_BITS as nat);
        let ghost parts = pow2(goal_split_count as nat);
        let ghost k1 = k@;
        let ghost s1 = slots@;
        let ghost outer = uts@;
        proof {
            lemma_agreed_parts(old(k)@, k1, k1);
        }
        let mut failed: Option<(KError, Untyped)> = None;
        loop
            invariant_except_break
                failed is None,
                agreed(old(k)@, k@),
                parts_added(old(self)@, s1, w.start, (uts@.window.fillstart - w.start) as nat)
                    == Some((self@, slots@)),
                self@.large.len() == old(self)@.large.len() + (uts@.window.fillstart - w.start)
                    * per,
            invariant
                extends(old(k)@, k@),
                self.wf(),
                slots.wf(),
                uts.wf(),
                slots.free().subset_of(old(slots).free()),
                self@.small == old(self)@.small,
                uts@.window.start == w.start,
                uts@.window.end == w.end,
                uts@.window.fillend == w.end,
                w.start <= uts@.window.fillstart <= w.end,
                uts@.size_bits == kernel::PAGE_2M_BITS + kernel::FAN_OUT_LIMIT_BITS,
                w.end - w.start == pow2(goal_split_count as nat),
                total == pow2(goal_split_count as nat) * per,
                per == pow2(kernel::FAN_OUT_LIMIT_BITS as nat),
                per > 0,
                ut@.size_bits > kernel::PAGE_2M_BITS + kernel::FAN_OUT_LIMIT_BITS,
                uts@.parent == outer.parent,
                parts == pow2(goal_split_count as nat),
                agreed(old(k)@, k1),
                extends(old(k)@, k1),
                extends(k1, k@),
                k1.len() == old(k)@.len() + 4,
                outer == (UntypedSetView {
                    window: SlotWindow { fillstart: w.start, ..w },
                    size_bits: 29,
                    parent: whole,
                }),
                uts@.size_bits == outer.size_bits,
                failed is None ==> k@.len() == k1.len() + 4 * (uts@.window.fillstart - w.start),
            ensures
                failed matches Some((err, back)) ==> ({
                    let j = uts@.window.fillstart - w.start - 1;
                    let so_far = parts_added(old(self)@, s1, w.start, j as nat);
                    &&& 0 <= j < parts
                    &&& so_far is Some
                    &&& so_far.unwrap().0 == self@
                    &&& back@ == (UntypedView { slot: (w.start + j) as usize, size_bits: 29 })
                    &&& retypes_agreed(old(k)@, k@) == j + 1
                    &&& err == if agreed(old(k)@, k@) {
                        KError::NotEnoughMemory
                    } else {
                        verdict(last_answer(k@))
                    }
                    &&& slots@ == if agreed(old(k)@, k@) {
                        so_far.unwrap().1
                    } else {
                        taken_and_back(so_far.unwrap().1, 256)
                    }
                }),
                failed is None ==> self@.large.len() == old(self)@.large.len() + total,
                failed matches Some((err, back)) ==> err != KError::NoError && back@.size_bits
                    <= ut@.size_bits && self@.large.len() < old(self)@.large.len() + total,
                failed is None ==> agreed(old(k)@, k@) && parts_added(
                    old(self)@,
                    s1,
                    w.start,
                    parts,
                ) == Some((self@, slots@)) && uts@.window.fillstart == w.end,
                failed is Some ==> !agreed(old(k)@, k@) || parts_added(
                    old(self)@,
                    s1,
                    w.start,
                    parts,
                ) is None,
            decreases uts@.window.count(),
        {
            let ghost done = uts@.window.fillstart - w.start;
            let ghost large_before = self@.large;
            let ghost slots_before = slots@;
            let ghost k_before = k@;
            match uts.take_front() {
                Some(child) => {
                    assert(child@.size_bits == kernel::PAGE_2M_BITS + kernel::FAN_OUT_LIMIT_BITS);
                    let ghost part = child@;
                    let added = self.add_huge_block(child, slots, k);
                    proof {
                        vstd::arithmetic::power2::lemma2_to64();
                        if first_fit(slots_before, 256) < slots_before.len() {
                            lemma_retyped_len(
                                k_before,
                                part.slot,
                                ObjectType::UntypedObject,
                                kernel::PAGE_2M_BITS,
                                slots_before[first_fit(slots_before, 256)].start,
                                256,
                                k@,
                            );
                        }
                    }
                    match added {
                        Ok(()) => {
                            proof {
                                assert((done + 1) * per == done * per + per) by (nonlinear_arith);
                                let at = first_fit(slots_before, per as int);
                                let kids = children(
                                    slots_before[at].start,
                                    per as int,
                                    kernel::PAGE_2M_BITS,
                                );
                                assert(self@.large == kids + large_before);
                                assert(self@.large.len() == large_before.len() + per);
                                lemma_agreed_parts(old(k)@, k_before, k@);
                            }
                        },
                        Err((err, child)) => {
                            proof {
                                lemma_agreed_parts(old(k)@, k_before, k@);
                                if agreed(old(k)@, k@) {
                                    lemma_parts_short(
                                        old(self)@,
                                        s1,
                                        w.start,
                                        (done + 1) as nat,
                                        parts,
                                    );
                                }
                                assert(self@.large == large_before);
                                assert(done * per < pow2(goal_split_count as nat) * per)
                                    by (nonlinear_arith)
                                    requires
                                        done < pow2(goal_split_count as nat),
                                        per > 0,
                                ;
                            }
                            failed = Some((err, child));
                            break ;
                        },
                    }
                },
                None => {
                    break ;
                },
            }
        }
        let ghost stash = set_views(self.stashed@);
        let _ = self.stashed.pushmut(uts);
        assert(set_views(self.stashed@) =~= seq![uts@] + stash);
        match failed {
            Some((err, child)) => Err((err, child)),
            None => Ok(()),
        }
    }

    /// Adds a boot untyped to the pool that fits its size.
    pub fn add_initial_block<S: Syscalls>(
        &mut self,
        ut: Untyped,
        slots: &mut SlotAllocator,
        k: &mut Machine<S>,
    ) -> (r: Result<(), (KError, Untyped)>)
        requires
            old(self).wf(),
            old(slots).wf(),
            kernel::PAGE_4K_BITS <= ut@.size_bits <= kernel::PAGE_2M_BITS + 2
                * kernel::FAN_OUT_LIMIT_BITS,
        ensures
            final(self).wf(),
            final(slots).wf(),
            final(slots).free().subset_of(old(slots).free()),
            ut@.size_bits == kernel::PAGE_4K_BITS ==> r is Ok && final(slots)@ == old(slots)@
                && final(self)@ == (Pools { small: seq![ut@] + old(self)@.small, ..old(self)@ })
                && final(k)@ == old(k)@,
            ut@.size_bits == kernel::PAGE_2M_BITS ==> r is Ok && final(slots)@ == old(slots)@
                && final(self)@ == (Pools { large: seq![ut@] + old(self)@.large, ..old(self)@ })
                && final(k)@ == old(k)@,
            kernel::PAGE_4K_BITS < ut@.size_bits < kernel::PAGE_2M_BITS && first_fit(
                old(slots)@,
                pow2((ut@.size_bits - kernel::PAGE_4K_BITS) as nat) as int,
            ) < old(slots)@.len() ==> (r is Ok <==> verdict(last_answer(final(k)@))
                == KError::NoError),
            kernel::PAGE_4K_BITS < ut@.size_bits < kernel::PAGE_2M_BITS && r is Ok ==> split_into(
                old(self)@,
                old(slots)@,
                ut@,
                (ut@.size_bits - kernel::PAGE_4K_BITS) as u8,
                true,
                final(self)@,
            ),
            ut@.size_bits > kernel::PAGE_2M_BITS ==> final(self)@.small == old(self)@.small,
            ut@.size_bits > kernel::PAGE_2M_BITS && r is Ok ==> final(self)@.large.len()
                == old(self)@.large.len() + pow2((ut@.size_bits - kernel::PAGE_2M_BITS) as nat),
            r matches Err((err, back)) ==> err != KError::NoError && back@.size_bits
                <= ut@.size_bits,
            extends(old(k)@, final(k)@),
            r is Ok <==> agreed(old(k)@, final(k)@) && added(old(self)@, old(slots)@, ut@) is Some,
            r is Ok ==> (final(self)@, final(slots)@) == added(
                old(self)@,
                old(slots)@,
                ut@,
            ).unwrap(),
            r is Err ==> adding_failed(
                old(self)@,
                old(slots)@,
                ut@,
                old(k)@,
                final(k)@,
                final(self)@,
                final(slots)@,
                r->Err_0.1@,
                r->Err_0.0,
            ),
    {
        if ut.size_bits() > kernel::PAGE_2M_BITS {
            self.add_oversize_block(ut, slots, k)
        } else if ut.size_bits() == kernel::PAGE_2M_BITS {
            self.add_large_page(ut);
            Ok(())
        } else if ut.size_bits() > kernel::PAGE_4K_BITS {
            self.add_midsize_block(ut, slots, k)
        } else {
            self.add_small_page(ut);
            Ok(())
        }
    }

    /// Takes a 4K untyped from the small pool. When the pool is empty, a 2M untyped is
    /// first split into two halves and each half into 256 untypeds of 4K. If that cannot
    /// be done, everything is put back as it was.
    pub fn allocate_small_page<S: Syscalls>(&mut self, slots: &mut SlotAllocator, k: &mut Machine<S>) -> (r:
        Result<Untyped, KError>)
        requires
            old(self).wf(),
            old(slots).wf(),
        ensures
            final(self).wf(),
            final(slots).wf(),
            final(slots).free().subset_of(old(slots).free()),
            old(self)@.small.len() > 0 ==> r is Ok && r.unwrap()@ == old(self)@.small[0]
                && final(self)@ == (Pools { small: old(self)@.small.skip(1), ..old(self)@ })
                && final(slots)@ == old(slots)@ && final(k)@ == old(k)@,
            r matches Ok(ut) ==> ut@.size_bits == kernel::PAGE_4K_BITS,
            r matches Err(err) ==> err != KError::NoError && final(self)@ == old(self)@
                && final(slots).free() == old(slots).free(),
            old(self)@.small.len() == 0 && (old(self)@.large.len() == 0 || first_fit(old(slots)@, 2)
                >= old(slots)@.len()) ==> r == Err::<Untyped, KError>(KError::NotEnoughMemory)
                && final(k)@ == old(k)@,
            old(self)@.small.len() == 0 && r is Ok ==> final(self)@.large == old(self)@.large.skip(
                1,
            ) && (final(self)@.small.len() == 255 || final(self)@.small.len() == 511),
            extends(old(k)@, final(k)@),
            old(self)@.small.len() == 0 && old(self)@.large.len() > 0
                && slots_for_refill(old(slots)@)
                && agreed(old(k)@, final(k)@) ==> r is Ok
                    && (final(self)@, final(slots)@, r.unwrap()@)
                == refilled(old(self)@, old(slots)@),
            old(self)@.small.len() == 0 && old(self)@.large.len() > 0 && first_fit(old(slots)@, 2)
                < old(slots)@.len() && first_fit(
                crate::crust::freelist::take_n(old(slots)@, 2),
                256,
            ) < crate::crust::freelist::take_n(old(slots)@, 2).len() ==> (r is Ok
                <==> halves_agreed(
                old(k)@,
                final(k)@,
            )),
            old(self)@.small.len() == 0 && old(self)@.large.len() > 0 && first_fit(old(slots)@, 2)
                < old(slots)@.len() ==> (r matches Err(err) ==> err == refill_error(
                old(k)@,
                final(k)@,
                old(slots)@,
            )),
            old(self)@.small.len() == 0 && r is Ok ==> ({
                let both = slots_for_refill(old(slots)@) && agreed(old(k)@, final(k)@);
                let model = refilled_by(old(self)@, old(slots)@, both);
                &&& final(self)@ == model.0
                &&& r.unwrap()@ == model.2
                &&& final(slots).free() == points(model.1)
                &&& both || !slots_for_refill(old(slots)@) ==> final(slots)@ == model.1
            }),
    {
        if self.small_pages.is_empty() {
            proof {
                vstd::arithmetic::power2::lemma2_to64();
                if first_fit(slots@, 2) < slots@.len() {
                    lemma_take(slots@, 2);
                }
            }
            let cslots = allocate_cap_slots(slots, 2)?;
            let large_page = match self.allocate_large_page() {
                Ok(page) => page,
                Err(err) => {
                    free_cap_slots(slots, cslots);
                    assert(slots.free() =~= old(slots).free());
                    return Err(err);
                },
            };
            let ghost mid_slots = slots.free();
            let ghost s1 = slots@;
            let ghost p0 = self@;
            let mut untypeds: UntypedSet = match large_page.split(1, cslots, k) {
                Ok(uts) => uts,
                Err((err, ut, cslots)) => {
                    free_cap_slots(slots, cslots);
                    assert(slots.free() =~= old(slots).free());
                    self.add_large_page(ut);
                    assert(self@.large =~= old(self)@.large);
                    return Err(err);
                },
            };
            let ghost k1 = k@;
            let ghost w = untypeds@.window;
            let first = untypeds.take_front().unwrap();
            match self.add_midsize_block(first, slots, k) {
                Ok(()) => {},
                Err((err, first)) => {
                    untypeds.readd(first);
                    let (parent, slotset) = untypeds.free(k);
                    free_cap_slots(slots, slotset);
                    assert(slots.free() =~= old(slots).free());
                    self.add_large_page(parent);
                    assert(self@.large =~= old(self)@.large);
                    proof {
                        lemma_agreed_parts(old(k)@, k1, k@);
                    }
                    return Err(err);
                },
            }
            let ghost k2 = k@;
            let ghost s2 = slots@;
            let ghost p1 = self@;
            let second = untypeds.take_front().unwrap();
            let ghost second_ok: bool;
            match self.add_midsize_block(second, slots, k) {
                Ok(()) => {
                    proof {
                        second_ok = true;
                    }
                },
                Err((_, second)) => {
                    proof {
                        second_ok = false;
                    }
                    untypeds.readd(second);
                },
            }
            let ghost stash = set_views(self.stashed@);
            let _ = self.stashed.pushmut(untypeds);
            proof {
                assert(set_views(self.stashed@) =~= seq![untypeds@] + stash);
                lemma_agreed_parts(old(k)@, k1, k@);
                lemma_agreed_parts(k1, k2, k@);
                assert(p0.large =~= old(self)@.large.skip(1));
                if slots_for_refill(old(slots)@) && agreed(old(k)@, k@) {
                    assert(second_ok);
                }
            }
        }
        let ghost before = views(self.small_pages@);
        let page = self.small_pages.popmut().unwrap();
        assert(views(self.small_pages@) =~= before.skip(1));
        assert(before[0] == page@);
        Ok(page)
    }

    /// How many untypeds the small and the large pool hold.
    pub fn counts(&self) -> (r: (usize, usize))
        requires
            self@.small.len() <= usize::MAX,
            self@.large.len() <= usize::MAX,
        ensures
            r == (self@.small.len() as usize, self@.large.len() as usize),
    {
        (self.small_pages.len(), self.large_pages.len())
    }

    /// What the pools hold.
    pub fn print_info(&self) -> (r: MemoryInfo)
        requires
            self@.large.len() <= 0x1_0000,
            self@.small.len() <= 0x1_0000,
        ensures
            r.large_blocks == self@.large.len(),
            r.large_kb == self@.large.len() * 2048,
            r.small_blocks == self@.small.len(),
            r.small_kb == self@.small.len() * 4,
            r.total_kb == self@.small.len() * 4 + self@.large.len() * 2048,
            r.total_mb == (self@.small.len() * 4 + self@.large.len() * 2048) / 1024,
    {
        let large = self.large_pages.len();
        let small = self.small_pages.len();
        let all_mem = small * 4 + large * 2048;
        assert(all_mem >> 10 == all_mem / 1024) by (bit_vector);
        MemoryInfo {
            large_blocks: large,
            large_kb: large * 2048,
            small_blocks: small,
            small_kb: small * 4,
            total_kb: all_mem,
            total_mb: all_mem >> 10,
        }
    }
}

/// The pools `before` with the `2^goal` children of `ut`, in slots from the first range
/// of `slots` that has as many, in front of the small or the large pool, and with the
/// emptied set of the children in front of the stashed sets.
pub open spec fn with_split(
    before: Pools,
    slots: Seq<crate::intervals::Span>,
    ut: UntypedView,
    goal: u8,
    small: bool,
) -> Pools {
    let count = pow2(goal as nat) as int;
    let first = slots[first_fit(slots, count)].start;
    let bits = (ut.size_bits - goal) as u8;
    let kids = children(first, count, bits);
    Pools {
        small: if small {
            kids + before.small
        } else {
            before.small
        },
        large: if small {
            before.large
        } else {
            kids + before.large
        },
        stashed: seq![
            UntypedSetView {
                window: SlotWindow {
                    start: first,
                    end: first + count,
                    fillstart: first + count,
                    fillend: first + count,
                },
                size_bits: bits,
                parent: ut,
            },
        ] + before.stashed,
    }
}

/// The pools and the free slots after `ut` was split into `2^goal` children, as
/// `with_split` says; `None` where no range of free slots has as many slots.
pub open spec fn split_pools(
    before: Pools,
    slots: Seq<crate::intervals::Span>,
    ut: UntypedView,
    goal: u8,
    small: bool,
) -> Option<(Pools, Seq<crate::intervals::Span>)> {
    let count = pow2(goal as nat) as int;
    if first_fit(slots, count) < slots.len() {
        Some((with_split(before, slots, ut, goal, small), crate::crust::freelist::take_n(slots, count)))
    } else {
        None
    }
}

/// The pools and the free slots after the first `n` of the 512M untypeds in the slots
/// from `first` on were split into 2M untypeds, lowest slot first; `None` where the free
/// slots do not suffice.
pub open spec fn parts_added(
    before: Pools,
    slots: Seq<crate::intervals::Span>,
    first: int,
    n: nat,
) -> Option<(Pools, Seq<crate::intervals::Span>)>
    decreases n,
{
    if n == 0 {
        Some((before, slots))
    } else {
        match parts_added(before, slots, first, (n - 1) as nat) {
            Some((pools, rest)) => split_pools(
                pools,
                rest,
                UntypedView {
                    slot: (first + n - 1) as usize,
                    size_bits: 29,
                },
                kernel::FAN_OUT_LIMIT_BITS,
                false,
            ),
            None => None,
        }
    }
}

/// The pools and the free slots after an untyped of more than 512M was added: it is
/// split into untypeds of 512M, each of these into 2M untypeds, and the emptied set of
/// the 512M untypeds is kept in front of the stashed sets.
pub open spec fn oversize_added(
    before: Pools,
    slots: Seq<crate::intervals::Span>,
    ut: UntypedView,
) -> Option<(Pools, Seq<crate::intervals::Span>)> {
    let goal = (ut.size_bits - kernel::PAGE_2M_BITS - kernel::FAN_OUT_LIMIT_BITS) as nat;
    let count = pow2(goal) as int;
    let at = first_fit(slots, count);
    if at >= slots.len() {
        None
    } else {
        let first = slots[at].start;
        match parts_added(
            before,
            crate::crust::freelist::take_n(slots, count),
            first,
            count as nat,
        ) {
            Some((pools, rest)) => Some(
                (
                    Pools {
                        stashed: seq![
                            UntypedSetView {
                                window: SlotWindow {
                                    start: first,
                                    end: first + count,
                                    fillstart: first + count,
                                    fillend: first + count,
                                },
                                size_bits: 29,
                                parent: ut,
                            },
                        ] + pools.stashed,
                        ..pools
                    },
                    rest,
                ),
            ),
            None => None,
        }
    }
}

/// The pools and the free slots after the untyped `ut` was added: one of 4K or 2M goes
/// to its pool as it is, one between them is split into 4K untypeds, one of up to 512M
/// into 2M untypeds, a larger one as `oversize_added` says. `None` where the free slots
/// do not suffice.
pub open spec fn added(before: Pools, slots: Seq<crate::intervals::Span>, ut: UntypedView) -> Option<
    (Pools, Seq<crate::intervals::Span>),
> {
    if ut.size_bits == kernel::PAGE_4K_BITS {
        Some((Pools { small: seq![ut] + before.small, ..before }, slots))
    } else if ut.size_bits == kernel::PAGE_2M_BITS {
        Some((Pools { large: seq![ut] + before.large, ..before }, slots))
    } else if ut.size_bits < kernel::PAGE_2M_BITS {
        split_pools(before, slots, ut, (ut.size_bits - kernel::PAGE_4K_BITS) as u8, true)
    } else if ut.size_bits <= kernel::PAGE_2M_BITS + kernel::FAN_OUT_LIMIT_BITS {
        split_pools(before, slots, ut, (ut.size_bits - kernel::PAGE_2M_BITS) as u8, false)
    } else {
        oversize_added(before, slots, ut)
    }
}

/// What a failed adding of an untyped of more than 512M leaves behind. Where the untyped
/// itself could not be split, it comes back and nothing is changed. Else the parts that
/// were split before the failing one are in the large pool, the failing part comes back,
/// and the set of the parts, without those, is stashed. The error is "not enough
/// memory" where slots were missing, else the kernel's verdict; the slots of a split
/// that the kernel refused are free again.
pub open spec fn oversize_failed(
    pools: Pools,
    slots: Seq<crate::intervals::Span>,
    ut: UntypedView,
    before: Seq<Event>,
    after: Seq<Event>,
    pools_after: Pools,
    slots_after: Seq<crate::intervals::Span>,
    back: UntypedView,
    err: KError,
) -> bool {
    let count = pow2((ut.size_bits - 29) as nat) as int;
    let done = retypes_agreed(before, after);
    let first = slots[first_fit(slots, count)].start;
    let so_far = parts_added(
        pools,
        crate::crust::freelist::take_n(slots, count),
        first,
        (done - 1) as nat,
    );
    &&& err == if agreed(before, after) {
        KError::NotEnoughMemory
    } else {
        verdict(last_answer(after))
    }
    &&& 0 <= done <= count
    &&& if done == 0 {
        &&& back == ut
        &&& pools_after == pools
        &&& slots_after == if agreed(before, after) {
            slots
        } else {
            taken_and_back(slots, count)
        }
    } else {
        &&& first_fit(slots, count) < slots.len()
        &&& so_far is Some
        &&& back == (UntypedView { slot: (first + done - 1) as usize, size_bits: 29 })
        &&& pools_after == (Pools {
            stashed: seq![
                UntypedSetView {
                    window: SlotWindow {
                        start: first,
                        end: first + count,
                        fillstart: first + done,
                        fillend: first + count,
                    },
                    size_bits: 29,
                    parent: ut,
                },
            ] + so_far.unwrap().0.stashed,
            ..so_far.unwrap().0
        })
        &&& slots_after == if agreed(before, after) {
            so_far.unwrap().1
        } else {
            taken_and_back(so_far.unwrap().1, 256)
        }
    }
}

/// What a failed adding of the untyped `ut` leaves behind. An untyped of at most 512M
/// comes back whole, and the pools are as they were; the error is "not enough memory"
/// where slots were missing, else the kernel's verdict, and then the slots that were
/// taken for the split are free again. A larger one is left as `oversize_failed` says.
pub open spec fn adding_failed(
    pools: Pools,
    slots: Seq<crate::intervals::Span>,
    ut: UntypedView,
    before: Seq<Event>,
    after: Seq<Event>,
    pools_after: Pools,
    slots_after: Seq<crate::intervals::Span>,
    back: UntypedView,
    err: KError,
) -> bool {
    if ut.size_bits > kernel::PAGE_2M_BITS + kernel::FAN_OUT_LIMIT_BITS {
        oversize_failed(pools, slots, ut, before, after, pools_after, slots_after, back, err)
    } else {
        let goal = if ut.size_bits > kernel::PAGE_2M_BITS {
            ut.size_bits - kernel::PAGE_2M_BITS
        } else {
            ut.size_bits - kernel::PAGE_4K_BITS
        };
        &&& back == ut
        &&& pools_after == pools
        &&& err == if agreed(before, after) {
            KError::NotEnoughMemory
        } else {
            verdict(last_answer(after))
        }
        &&& slots_after == if agreed(before, after) {
            slots
        } else {
            taken_and_back(slots, pow2(goal as nat) as int)
        }
    }
}

/// Once the free slots do not suffice for the first parts, they do not for more.
pub proof fn lemma_parts_short(
    before: Pools,
    slots: Seq<crate::intervals::Span>,
    first: int,
    m: nat,
    n: nat,
)
    requires
        m <= n,
        parts_added(before, slots, first, m) is None,
    ensures
        parts_added(before, slots, first, n) is None,
    decreases n,
{
    if m < n {
        lemma_parts_short(before, slots, first, m, (n - 1) as nat);
    }
}

/// The pools and the free slots after an empty small pool was filled from the first 2M
/// untyped of the large pool, and the 4K untyped that is handed out: the 2M untyped is
/// split in two halves, the lower half in 256 untypeds of 4K and, if `both`, the upper
/// half too; the last of the 4K untypeds leaves the pool at once. Where the upper half
/// is not split, it stays in the set of the halves.
pub open spec fn refilled_by(before: Pools, slots: Seq<crate::intervals::Span>, both: bool) -> (
    Pools,
    Seq<crate::intervals::Span>,
    UntypedView,
) {
    let first = slots[first_fit(slots, 2)].start;
    let s1 = crate::crust::freelist::take_n(slots, 2);
    let s2 = crate::crust::freelist::take_n(s1, 256);
    let s3 = if both {
        crate::crust::freelist::take_n(s2, 256)
    } else {
        s2
    };
    let lower = UntypedView { slot: first as usize, size_bits: 20 };
    let upper = UntypedView { slot: (first + 1) as usize, size_bits: 20 };
    let p0 = Pools { large: before.large.skip(1), ..before };
    let p1 = with_split(p0, s1, lower, 8, true);
    let p2 = if both {
        with_split(p1, s2, upper, 8, true)
    } else {
        p1
    };
    let halves = UntypedSetView {
        window: SlotWindow {
            start: first,
            end: first + 2,
            fillstart: if both {
                first + 2
            } else {
                first + 1
            },
            fillend: first + 2,
        },
        size_bits: 20,
        parent: before.large[0],
    };
    (
        Pools { small: p2.small.skip(1), stashed: seq![halves] + p2.stashed, ..p2 },
        s3,
        p2.small[0],
    )
}

/// The pools and the free slots after a refill that split both halves, and the 4K
/// untyped that is handed out.
pub open spec fn refilled(before: Pools, slots: Seq<crate::intervals::Span>) -> (
    Pools,
    Seq<crate::intervals::Span>,
    UntypedView,
) {
    refilled_by(before, slots, true)
}

/// The error of a refill that fails although a 2M untyped and two slots are there: the
/// kernel's verdict on the split of the 2M untyped if it refused that; else "not enough
/// memory" if no 256 slots are free for the lower half, or the kernel's verdict on the
/// split of that half.
pub open spec fn refill_error(
    before: Seq<Event>,
    after: Seq<Event>,
    slots: Seq<crate::intervals::Span>,
) -> KError {
    let n = before.len() as int;
    let rest = crate::crust::freelist::take_n(slots, 2);
    if verdict(last_answer(after.subrange(0, n + 4))) != KError::NoError {
        verdict(last_answer(after.subrange(0, n + 4)))
    } else if first_fit(rest, 256) >= rest.len() {
        KError::NotEnoughMemory
    } else {
        verdict(last_answer(after.subrange(0, n + 8)))
    }
}

/// The kernel agreed to the first two retypes that the record `after` holds beyond
/// `before`: in a refill, the split of the 2M untyped and the split of its lower half.
pub open spec fn halves_agreed(before: Seq<Event>, after: Seq<Event>) -> bool {
    after.len() >= before.len() + 8 && agreed(before, after.subrange(0, before.len() as int + 8))
}

/// The free slots suffice for filling the small pool: two for the halves, and 256 for
/// the pages of each half.
pub open spec fn slots_for_refill(slots: Seq<crate::intervals::Span>) -> bool {
    let s1 = crate::crust::freelist::take_n(slots, 2);
    let s2 = crate::crust::freelist::take_n(s1, 256);
    &&& first_fit(slots, 2) < slots.len()
    &&& first_fit(s1, 256) < s1.len()
    &&& first_fit(s2, 256) < s2.len()
}

/// The pools `after` are the pools `before` with the `2^goal` children of `ut`, in slots
/// from the first range of `slots` that has as many, in front of the small or the large
/// pool, and with the emptied set of the children in front of the stashed sets.
pub open spec fn split_into(
    before: Pools,
    slots: Seq<crate::intervals::Span>,
    ut: UntypedView,
    goal: u8,
    small: bool,
    after: Pools,
) -> bool {
    let count = pow2(goal as nat) as int;
    let at = first_fit(slots, count);
    let bits = (ut.size_bits - goal) as u8;
    let kids = children(slots[at].start, count, bits);
    &&& at < slots.len()
    &&& after.small == if small {
        kids + before.small
    } else {
        before.small
    }
    &&& after.large == if small {
        before.large
    } else {
        kids + before.large
    }
    &&& after.stashed == seq![
        UntypedSetView {
            window: SlotWindow {
                start: slots[at].start,
                end: slots[at].start + count,
                fillstart: slots[at].start + count,
                fillend: slots[at].start + count,
            },
            size_bits: bits,
            parent: ut,
        },
    ] + before.stashed
}

/// The boot untypeds of ordinary memory with `size_bits` bits among the entries from
/// `from` up to `count`, lowest entry first; entry `i` lies in slot `start + i`.
pub open spec fn picked(
    list: Seq<UntypedDesc>,
    start: int,
    from: int,
    count: int,
    size_bits: u8,
) -> Seq<UntypedView>
    decreases count - from,
{
    if from >= count {
        Seq::empty()
    } else if list[from].is_device == 0 && list[from].size_bits == size_bits {
        seq![UntypedView { slot: (start + from) as usize, size_bits }] + picked(
            list,
            start,
            from + 1,
            count,
            size_bits,
        )
    } else {
        picked(list, start, from + 1, count, size_bits)
    }
}

/// Every boot untyped of ordinary memory among the first `count` entries has a size that
/// the allocator can take: from 4K to 128G.
pub open spec fn sizes_in_range(list: Seq<UntypedDesc>, count: int) -> bool {
    forall|i: int|
        0 <= i < count && (#[trigger] list[i]).is_device == 0 ==> kernel::PAGE_4K_BITS
            <= list[i].size_bits <= kernel::PAGE_2M_BITS + 2 * kernel::FAN_OUT_LIMIT_BITS
}

/// No boot untyped of ordinary memory among the first `count` entries needs splitting.
pub open spec fn only_pages(list: Seq<UntypedDesc>, count: int) -> bool {
    forall|i: int|
        0 <= i < count && (#[trigger] list[i]).is_device == 0 ==> list[i].size_bits
            == kernel::PAGE_4K_BITS || list[i].size_bits == kernel::PAGE_2M_BITS
}

/// The pools and the free slots after one pass over the boot untypeds: the untypeds of
/// ordinary memory with `lo` to `hi` size bits among the entries from `from` up to
/// `count` are added, last entry first; entry `i` lies in slot `start + i`. `None` where
/// the free slots do not suffice.
pub open spec fn passed(
    list: Seq<UntypedDesc>,
    start: int,
    from: int,
    count: int,
    lo: u8,
    hi: u8,
    pools: Pools,
    slots: Seq<crate::intervals::Span>,
) -> Option<(Pools, Seq<crate::intervals::Span>)>
    decreases count - from,
{
    if from >= count {
        Some((pools, slots))
    } else {
        match passed(list, start, from + 1, count, lo, hi, pools, slots) {
            Some((p, s)) => if list[from].is_device == 0 && lo <= list[from].size_bits <= hi {
                added(
                    p,
                    s,
                    UntypedView { slot: (start + from) as usize, size_bits: list[from].size_bits },
                )
            } else {
                Some((p, s))
            },
            None => None,
        }
    }
}

/// The pools and the free slots after the boot untypeds were added in three passes:
/// those of 4K, those between 4K and 2M, those of 2M and more.
pub open spec fn booted(
    list: Seq<UntypedDesc>,
    start: int,
    count: int,
    pools: Pools,
    slots: Seq<crate::intervals::Span>,
) -> Option<(Pools, Seq<crate::intervals::Span>)> {
    match passed(list, start, 0, count, 12, 12, pools, slots) {
        Some((p1, s1)) => match passed(list, start, 0, count, 13, 20, p1, s1) {
            Some((p2, s2)) => passed(list, start, 0, count, 21, 255, p2, s2),
            None => None,
        },
        None => None,
    }
}

/// Once the free slots do not suffice for the last entries of a pass, they do not for
/// the whole pass.
pub proof fn lemma_passed_short(
    list: Seq<UntypedDesc>,
    start: int,
    from: int,
    upto: int,
    count: int,
    lo: u8,
    hi: u8,
    pools: Pools,
    slots: Seq<crate::intervals::Span>,
)
    requires
        from <= upto,
        passed(list, start, upto, count, lo, hi, pools, slots) is None,
    ensures
        passed(list, start, from, count, lo, hi, pools, slots) is None,
    decreases upto - from,
{
    if from < upto {
        lemma_passed_short(list, start, from + 1, upto, count, lo, hi, pools, slots);
    }
}

/// Gives the allocator the boot untypeds of ordinary memory: first those of 4K, then
/// those between 4K and 2M, then those of 2M and more, each time from the last entry to
/// the first. Stops at the first untyped that cannot be added.
pub fn init_untyped<S: Syscalls>(
    alloc: &mut UntypedAllocator,
    untyped: CapRange,
    untyped_list: &[UntypedDesc; 230],
    slots: &mut SlotAllocator,
    k: &mut Machine<S>,
) -> (r: Result<(), KError>)
    requires
        old(alloc).wf(),
        old(slots).wf(),
        untyped.wf(),
        untyped@.len() <= 230,
        sizes_in_range(untyped_list@, untyped@.len()),
    ensures
        final(alloc).wf(),
        final(slots).wf(),
        final(slots).free().subset_of(old(slots).free()),
        r matches Err(err) ==> err != KError::NoError,
        only_pages(untyped_list@, untyped@.len()) ==> r is Ok && final(slots)@ == old(slots)@
            && final(k)@ == old(k)@ && final(alloc)@ == (Pools {
            small: picked(
                untyped_list@,
                untyped@.start,
                0,
                untyped@.len(),
                kernel::PAGE_4K_BITS,
            ) + old(alloc)@.small,
            large: picked(
                untyped_list@,
                untyped@.start,
                0,
                untyped@.len(),
                kernel::PAGE_2M_BITS,
            ) + old(alloc)@.large,
            stashed: old(alloc)@.stashed,
        }),
        extends(old(k)@, final(k)@),
        r is Ok <==> agreed(old(k)@, final(k)@) && booted(
            untyped_list@,
            untyped@.start,
            untyped@.len(),
            old(alloc)@,
            old(slots)@,
        ) is Some,
        r is Ok ==> (final(alloc)@, final(slots)@) == booted(
            untyped_list@,
            untyped@.start,
            untyped@.len(),
            old(alloc)@,
            old(slots)@,
        ).unwrap(),
{
    let count = untyped.len();
    let ghost list = untyped_list@;
    let ghost start = untyped@.start;
    let ghost plain = only_pages(list, count as int);
    let ghost p0 = alloc@;
    let ghost s0 = slots@;
    let mut ir: usize = 0;
    while ir < count
        invariant
            extends(old(k)@, k@),
            alloc.wf(),
            slots.wf(),
            untyped.wf(),
            count == untyped@.len(),
            count <= 230,
            ir <= count,
            list == untyped_list@,
            start == untyped@.start,
            sizes_in_range(list, count as int),
            slots.free().subset_of(old(slots).free()),
            slots@ == old(slots)@,
            k@ == old(k)@,
            alloc@ == (Pools {
                small: picked(list, start, count - ir, count as int, kernel::PAGE_4K_BITS)
                    + old(alloc)@.small,
                ..old(alloc)@
            }),
            p0 == old(alloc)@,
            s0 == old(slots)@,
            passed(list, start, count - ir, count as int, 12, 12, p0, s0) == Some(
                (alloc@, slots@),
            ),
        decreases count - ir,
    {
        let i = count - 1 - ir;
        let ent = untyped_list[i];
        let ghost rest = picked(list, start, i + 1, count as int, kernel::PAGE_4K_BITS);
        let ghost base = old(alloc)@.small;
        assert(ent == list[i as int]);
        if ent.is_device == 0 && ent.size_bits == kernel::PAGE_4K_BITS {
            let ut = Untyped::from_cap(untyped.nth(i).assert_populated(), ent.size_bits);
            match alloc.add_initial_block(ut, slots, k) {
                Ok(()) => {},
                Err((err, _)) => {
                    return Err(err);
                },
            }
            assert(seq![ut@] + (rest + base) =~= (seq![ut@] + rest) + base);
        }
        assert(alloc@.small == picked(list, start, i as int, count as int, kernel::PAGE_4K_BITS)
            + base);
        ir = ir + 1;
    }
    let ghost small_done = alloc@.small;
    let ghost p1 = alloc@;
    let ghost s1 = slots@;
    let mut ir: usize = 0;
    while ir < count
        invariant
            extends(old(k)@, k@),
            agreed(old(k)@, k@),
            passed(list, start, 0, count as int, 12, 12, old(alloc)@, old(slots)@) == Some(
                (p1, s1),
            ),
            passed(list, start, count - ir, count as int, 13, 20, p1, s1) == Some(
                (alloc@, slots@),
            ),
            alloc.wf(),
            slots.wf(),
            untyped.wf(),
            count == untyped@.len(),
            count <= 230,
            ir <= count,
            list == untyped_list@,
            start == untyped@.start,
            sizes_in_range(list, count as int),
            slots.free().subset_of(old(slots).free()),
            plain == only_pages(list, count as int),
            plain ==> slots@ == old(slots)@ && k@ == old(k)@ && alloc@ == (Pools {
                small: small_done,
                ..old(alloc)@
            }),
        decreases count - ir,
    {
        let i = count - 1 - ir;
        let ent = untyped_list[i];
        let ghost k_before = k@;
        assert(ent == list[i as int]);
        if ent.is_device == 0 && ent.size_bits != kernel::PAGE_4K_BITS && ent.size_bits
            < kernel::PAGE_2M_BITS {
            let ut = Untyped::from_cap(untyped.nth(i).assert_populated(), ent.size_bits);
            let added = alloc.add_initial_block(ut, slots, k);
            proof {
                lemma_agreed_parts(old(k)@, k_before, k@);
            }
            match added {
                Ok(()) => {},
                Err((err, _)) => {
                    proof {
                        if agreed(old(k)@, k@) {
                            lemma_passed_short(list, start, 0, i as int, count as int, 13, 20, p1, s1);
                        }
                    }
                    return Err(err);
                },
            }
        }
        ir = ir + 1;
    }
    let ghost p2 = alloc@;
    let ghost s2 = slots@;
    let mut ir: usize = 0;
    while ir < count
        invariant
            extends(old(k)@, k@),
            agreed(old(k)@, k@),
            passed(list, start, 0, count as int, 12, 12, old(alloc)@, old(slots)@) == Some(
                (p1, s1),
            ),
            passed(list, start, 0, count as int, 13, 20, p1, s1) == Some((p2, s2)),
            passed(list, start, count - ir, count as int, 21, 255, p2, s2) == Some(
                (alloc@, slots@),
            ),
            alloc.wf(),
            slots.wf(),
            untyped.wf(),
            count == untyped@.len(),
            count <= 230,
            ir <= count,
            list == untyped_list@,
            start == untyped@.start,
            sizes_in_range(list, count as int),
            slots.free().subset_of(old(slots).free()),
            plain == only_pages(list, count as int),
            plain ==> slots@ == old(slots)@ && k@ == old(k)@ && alloc@ == (Pools {
                small: small_done,
                large: picked(list, start, count - ir, count as int, kernel::PAGE_2M_BITS)
                    + old(alloc)@.large,
                stashed: old(alloc)@.stashed,
            }),
        decreases count - ir,
    {
        let i = count - 1 - ir;
        let ent = untyped_list[i];
        let ghost rest = picked(list, start, i + 1, count as int, kernel::PAGE_2M_BITS);
        let ghost base = old(alloc)@.large;
        assert(ent == list[i as int]);
        let ghost k_before = k@;
        if ent.is_device == 0 && ent.size_bits >= kernel::PAGE_2M_BITS {
            let ut = Untyped::from_cap(untyped.nth(i).assert_populated(), ent.size_bits);
            let added = alloc.add_initial_block(ut, slots, k);
            proof {
                lemma_agreed_parts(old(k)@, k_before, k@);
            }
            match added {
                Ok(()) => {},
                Err((err, _)) => {
                    proof {
                        if agreed(old(k)@, k@) {
                            lemma_passed_short(list, start, 0, i as int, count as int, 21, 255, p2, s2);
                        }
                    }
                    return Err(err);
                },
            }
            assert(seq![ut@] + (rest + base) =~= (seq![ut@] + rest) + base);
        }
        assert(plain ==> alloc@.large == picked(
            list,
            start,
            i as int,
            count as int,
            kernel::PAGE_2M_BITS,
        ) + base);
        ir = ir + 1;
    }
    Ok(())
}

/// Takes a 4K untyped from the allocator.
pub fn allocate_untyped_4k<S: Syscalls>(
    alloc: &mut UntypedAllocator,
    slots: &mut SlotAllocator,
    k: &mut Machine<S>,
) -> (r: Result<Untyped, KError>)
    requires
        old(alloc).wf(),
        old(slots).wf(),
    ensures
        final(alloc).wf(),
        final(slots).wf(),
        final(slots).free().subset_of(old(slots).free()),
        old(alloc)@.small.len() > 0 ==> r is Ok && r.unwrap()@ == old(alloc)@.small[0]
            && final(alloc)@ == (Pools { small: old(alloc)@.small.skip(1), ..old(alloc)@ })
            && final(slots)@ == old(slots)@ && final(k)@ == old(k)@,
        r matches Ok(ut) ==> ut@.size_bits == kernel::PAGE_4K_BITS,
        r matches Err(err) ==> err != KError::NoError && final(alloc)@ == old(alloc)@
            && final(slots).free() == old(slots).free(),
        old(alloc)@.small.len() == 0 && (old(alloc)@.large.len() == 0 || first_fit(old(slots)@, 2)
            >= old(slots)@.len()) ==> r == Err::<Untyped, KError>(KError::NotEnoughMemory)
            && final(k)@ == old(k)@,
        extends(old(k)@, final(k)@),
        old(alloc)@.small.len() == 0 && old(alloc)@.large.len() > 0 && slots_for_refill(old(slots)@)
            && agreed(old(k)@, final(k)@) ==> r is Ok && (final(alloc)@, final(slots)@, r.unwrap()@)
            == refilled(old(alloc)@, old(slots)@),
        old(alloc)@.small.len() == 0 && old(alloc)@.large.len() > 0 && first_fit(old(slots)@, 2)
            < old(slots)@.len() && first_fit(crate::crust::freelist::take_n(old(slots)@, 2), 256)
            < crate::crust::freelist::take_n(old(slots)@, 2).len() ==> (r is Ok <==> halves_agreed(
            old(k)@,
            final(k)@,
        )),
        old(alloc)@.small.len() == 0 && old(alloc)@.large.len() > 0 && first_fit(old(slots)@, 2)
            < old(slots)@.len() ==> (r matches Err(err) ==> err == refill_error(
            old(k)@,
            final(k)@,
            old(slots)@,
        )),
        old(alloc)@.small.len() == 0 && r is Ok ==> ({
            let both = slots_for_refill(old(slots)@) && agreed(old(k)@, final(k)@);
            let model = refilled_by(old(alloc)@, old(slots)@, both);
            &&& final(alloc)@ == model.0
            &&& r.unwrap()@ == model.2
            &&& final(slots).free() == points(model.1)
            &&& both || !slots_for_refill(old(slots)@) ==> final(slots)@ == model.1
        }),
{
    alloc.allocate_small_page(slots, k)
}

/// Makes a frame of 4K: takes a slot and a 4K untyped and has the kernel retype the one
/// into the other. If any step fails, what was taken goes back.
pub fn allocate_page4k<S: Syscalls>(
    alloc: &mut UntypedAllocator,
    slots: &mut SlotAllocator,
    k: &mut Machine<S>,
) -> (r: Result<Page4K, KError>)
    requires
        old(alloc).wf(),
        old(slots).wf(),
    ensures
        final(alloc).wf(),
        final(slots).wf(),
        final(slots).free().subset_of(old(slots).free()),
        r matches Ok(page) ==> page@.parent.size_bits == kernel::PAGE_4K_BITS
            && old(slots)@.len() > 0 && page@.slot == old(slots)@[0].start
            && !final(slots).free().contains(
            page@.slot as int,
        ) && page@.slot < usize::MAX,
        r is Ok && old(alloc)@.small.len() > 0 ==> r.unwrap()@.parent == old(alloc)@.small[0]
            && final(alloc)@ == (Pools { small: old(alloc)@.small.skip(1), ..old(alloc)@ })
            && final(slots)@ == crate::crust::freelist::take_one(old(slots)@),
        r matches Err(err) ==> err != KError::NoError,
        r is Err && old(alloc)@.small.len() > 0 ==> final(slots).free() == old(slots).free()
            && final(alloc)@ == old(alloc)@,
        old(slots)@.len() == 0 ==> r == Err::<Page4K, KError>(KError::NotEnoughMemory) && final(k)@
            == old(k)@,
        old(slots)@.len() > 0 && old(alloc)@.small.len() > 0 ==> (r is Ok <==> verdict(
            last_answer(final(k)@),
        ) == KError::NoError) && (r matches Err(err) ==> err == verdict(last_answer(final(k)@)))
            && retyped(
            old(k)@,
            old(alloc)@.small[0].slot,
            ObjectType::X864K,
            0,
            old(slots)@[0].start,
            1,
            final(k)@,
        ),
        extends(old(k)@, final(k)@),
        old(slots)@.len() > 0 && old(alloc)@.small.len() == 0 && old(alloc)@.large.len() > 0
            && slots_for_refill(crate::crust::freelist::take_one(old(slots)@)) && agreed(
            old(k)@,
            final(k)@,
        ) ==> r is Ok && (final(alloc)@, final(slots)@, r.unwrap()@.parent) == refilled(
            old(alloc)@,
            crate::crust::freelist::take_one(old(slots)@),
        ) && r.unwrap()@.slot == old(slots)@[0].start,
        r is Err && agreed(old(k)@, final(k)@) ==> final(alloc)@ == old(alloc)@
            && (old(slots)@.len()
            == 0 && final(slots)@ == old(slots)@ || old(alloc)@.small.len() == 0),
        r is Err && old(slots)@.len() > 0 && old(alloc)@.small.len() > 0 ==> final(slots)@
            == crate::crust::freelist::merge(
            crate::crust::freelist::take_one(old(slots)@),
            crate::crust::freelist::unit(old(slots)@[0].start),
        ),
        r is Err ==> (final(alloc)@ == old(alloc)@ && (old(slots)@.len() == 0 && final(slots)@
            == old(slots)@ || old(alloc)@.small.len() == 0)) || refused_near_end(
            old(k)@,
            final(k)@,
            4,
        ),
{
    let slot = allocate_cap_slot(slots)?;
    let found = allocate_untyped_4k(alloc, slots, k);
    let ghost k1 = k@;
    let ut = match found {
        Ok(ut) => ut,
        Err(err) => {
            free_cap_slot(slots, slot);
            assert(slots.free() =~= old(slots).free());
            proof {
                lemma_agreed_parts(old(k)@, k1, k@);
            }
            return Err(err);
        },
    };
    let ghost donor = ut@.slot;
    let ghost place = slot@;
    let made = ut.become_page_4k(slot, k);
    proof {
        lemma_agreed_parts(old(k)@, k1, k@);
        if made is Err {
            lemma_retyped_len(k1, donor, ObjectType::X864K, 0, place as int, 1, k@);
            lemma_not_agreed_refused(k1, k@, 4);
            lemma_refused_extends(old(k)@, k1, k@, k@, 4, 0);
        }
    }
    match made {
        Ok(page) => Ok(page),
        Err((err, ut, cs)) => {
            free_cap_slot(slots, cs);
            free_untyped_4k(alloc, ut);
            proof {
                if old(alloc)@.small.len() > 0 {
                    assert(slots.free() =~= old(slots).free());
                    assert(alloc@.small =~= old(alloc)@.small);
                }
            }
            Err(err)
        },
    }
}

/// Gives a 4K untyped back to the allocator.
pub fn free_untyped_4k(alloc: &mut UntypedAllocator, ut: Untyped)
    requires
        old(alloc).wf(),
        ut@.size_bits == kernel::PAGE_4K_BITS,
    ensures
        final(alloc).wf(),
        final(alloc)@ == (Pools { small: seq![ut@] + old(alloc)@.small, ..old(alloc)@ }),
{
    alloc.add_small_page(ut);
}

/// Gives a frame back: the kernel deletes it, its untyped goes to the small pool and
/// its slot to the slot allocator.
pub fn free_page4k<S: Syscalls>(
    alloc: &mut UntypedAllocator,
    slots: &mut SlotAllocator,
    page: Page4K,
    k: &mut Machine<S>,
)
    requires
        old(alloc).wf(),
        old(slots).wf(),
        page@.parent.size_bits == kernel::PAGE_4K_BITS,
        page@.slot < usize::MAX,
        !old(slots).free().contains(page@.slot as int),
    ensures
        final(alloc).wf(),
        final(slots).wf(),
        final(alloc)@ == (Pools { small: seq![page@.parent] + old(alloc)@.small, ..old(alloc)@ }),
        final(slots)@ == crate::crust::freelist::merge(
            old(slots)@,
            crate::crust::freelist::unit(page@.slot as int),
        ),
        final(slots).free() == old(slots).free().insert(page@.slot as int),
        deleted(old(k)@, page@.slot, final(k)@),
        extends(old(k)@, final(k)@),
{
    let (ut, cs) = page.free(k);
    free_untyped_4k(alloc, ut);
    free_cap_slot(slots, cs);
}

} // verus!
