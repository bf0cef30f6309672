//! The bookkeeping of the heap. Blocks are counted in words of eight bytes and named by
//! their addresses; the memory itself is not touched here. Three providers are asked in
//! turn: the recycler of freed blocks, the fixed arena, and the arena that grows by
//! mapping frames.
use vstd::prelude::*;
use crate::mantle::kio::extends;
use crate::kobject::steps::group_record;
use crate::crust::capalloc::SlotAllocator;
use crate::crust::freelist::first_fit;
use crate::crust::vspace::{allocate_vregion, RegionAllocator, VRegion};
use crate::intervals::Span;
use crate::kobject::page4k::{begins_with_map, lemma_first_map_agreed, FixedView};
use crate::kobject::steps::{lemma_retyped_len, retyped};
use crate::mantle::kernel::ObjectType;
use crate::crust::freelist::{
    lemma_take,
    lemma_take_one_is_take_n,
    merge,
    points,
    take_one,
    unit,
};
use crate::kobject::ObjectView;
use crate::mantle::calls::{
    agreed,
    lemma_agreed_parts,
    lemma_refused_extends,
    lemma_refused_not_willing,
    refused_near_end,
    willing,
};
use crate::kobject::{FixedMappedPage4K, PageTables};
use crate::mantle::kernel;
use crate::mantle::kernel::KError;
use crate::mantle::kio::{Syscalls, Machine};
use crate::memory::linkedlist::LinkedList;
use crate::memory::untyped::{allocate_page4k, free_page4k, Pools, UntypedAllocator};

verus! {

broadcast use group_record;

/// The largest block that the heap hands out, in bytes.
pub const MAX_ALLOC_LEN: usize = 2040;

/// The size of the fixed arena in kilobytes.
pub const HEAP_KB: usize = 64;

/// The size of the fixed arena in words.
pub const HEAP_U64: usize = 8192;

/// The size of the growing arena's address space in bits: 256 MB.
pub const VREGION_BITS: u8 = 28;

/// The size of the growing arena's address space in bytes.
pub const VREGION_SIZE: usize = 0x1000_0000;

/// How far ahead of the bytes handed out the growing arena keeps frames mapped: eight
/// pages.
pub const ALLOCATION_BUFFER: usize = 0x8000;

/// The number of words that hold `size` bytes.
pub open spec fn words_for(size: int) -> int {
    (size + 7) / 8
}

/// The fixed arena: `HEAP_U64` words from the address `base` on, handed out front to
/// back and never taken back.
pub struct FixedAllocator {
    base: usize,
    first_free: usize,
}

impl FixedAllocator {
    pub closed spec fn base(&self) -> usize {
        self.base
    }

    /// How many words were handed out.
    pub closed spec fn used(&self) -> usize {
        self.first_free
    }

    pub open spec fn wf(&self) -> bool {
        self.used() <= HEAP_U64 && self.base() + 8 * HEAP_U64 <= usize::MAX
    }

    /// The arena at `base` with nothing handed out.
    pub fn new(base: usize) -> (r: FixedAllocator)
        requires
            base + 8 * HEAP_U64 <= usize::MAX,
        ensures
            r.wf(),
            r.base() == base,
            r.used() == 0,
    {
        FixedAllocator { base, first_free: 0 }
    }

    /// How many words were handed out.
    pub fn used_words(&self) -> (r: usize)
        ensures
            r == self.used(),
    {
        self.first_free
    }

    /// Hands out the next `size` words, if as many are left.
    pub fn alloc_fixblks(&mut self, size: u8) -> (r: Option<usize>)
        requires
            old(self).wf(),
            size != 0,
        ensures
            final(self).wf(),
            final(self).base() == old(self).base(),
            old(self).used() + size <= HEAP_U64 ==> r == Some(
                (old(self).base() + 8 * old(self).used()) as usize,
            ) && final(self).used() == old(self).used() + size,
            old(self).used() + size > HEAP_U64 ==> r is None && final(self).used()
                == old(self).used(),
    {
        if self.first_free + (size as usize) <= HEAP_U64 {
            let nptr = self.base + 8 * self.first_free;
            self.first_free += size as usize;
            Some(nptr)
        } else {
            None
        }
    }
}

/// The recycler: for each size from 1 to 255 words, the freed blocks of that size, the
/// one freed last first.
pub struct RecycleAllocator {
    buckets: Vec<Vec<usize>>,
}

/// The buckets after the block at `ptr` of `size` words was freed.
pub open spec fn recycled(buckets: Seq<Seq<usize>>, size: int, ptr: usize) -> Seq<Seq<usize>> {
    buckets.update(size - 1, seq![ptr] + buckets[size - 1])
}

/// The buckets after a block of `size` words was taken from them.
pub open spec fn reused(buckets: Seq<Seq<usize>>, size: int) -> Seq<Seq<usize>> {
    buckets.update(size - 1, buckets[size - 1].skip(1))
}

/// A block that is freed is the block that the next allocation of its size gets, and the
/// recycler is then as it was before.
pub proof fn lemma_recycle(buckets: Seq<Seq<usize>>, size: int, ptr: usize)
    requires
        buckets.len() == 255,
        1 <= size <= 255,
    ensures
        recycled(buckets, size, ptr)[size - 1].len() > 0,
        recycled(buckets, size, ptr)[size - 1][0] == ptr,
        reused(recycled(buckets, size, ptr), size) == buckets,
{
    assert((seq![ptr] + buckets[size - 1]).skip(1) =~= buckets[size - 1]);
    assert(reused(recycled(buckets, size, ptr), size) =~= buckets);
}

impl RecycleAllocator {
    /// The freed blocks by size: entry `i` holds those of `i + 1` words, last freed first.
    pub closed spec fn view(&self) -> Seq<Seq<usize>> {
        Seq::new(self.buckets@.len(), |i: int| stack_of(self.buckets@[i]@))
    }

    pub closed spec fn wf(&self) -> bool {
        self.buckets@.len() == 255
    }

    pub proof fn lemma_wf(&self)
        requires
            self.wf(),
        ensures
            self@.len() == 255,
    {
    }

    /// A recycler without blocks.
    pub fn new() -> (r: RecycleAllocator)
        ensures
            r.wf(),
            r@.len() == 255,
            forall|i: int| 0 <= i < 255 ==> (#[trigger] r@[i]).len() == 0,
    {
        let mut buckets: Vec<Vec<usize>> = Vec::new();
        let mut i: usize = 0;
        while i < 255
            invariant
                i <= 255,
                buckets@.len() == i,
                forall|j: int| 0 <= j < i ==> (#[trigger] buckets@[j])@.len() == 0,
            decreases 255 - i,
        {
            buckets.push(Vec::new());
            i = i + 1;
        }
        let r = RecycleAllocator { buckets };
        assert forall|i: int| 0 <= i < 255 implies (#[trigger] r@[i]).len() == 0 by {
            assert(r.buckets@[i]@.len() == 0);
        }
        r
    }

    /// Hands out the block of `size` words that was freed last, if there is one.
    pub fn alloc_fixblks(&mut self, size: u8) -> (r: Option<usize>)
        requires
            old(self).wf(),
            size != 0,
        ensures
            final(self).wf(),
            old(self)@[size - 1].len() == 0 ==> r is None && final(self)@ == old(self)@,
            old(self)@[size - 1].len() > 0 ==> r == Some(old(self)@[size - 1][0]) && final(self)@
                == reused(old(self)@, size as int),
    {
        let index = (size - 1) as usize;
        let ghost before = self@;
        let r = self.buckets[index].pop();
        proof {
            assert(self.buckets@.len() == 255);
            match r {
                Some(p) => {
                    assert(self@ =~= reused(before, size as int)) by {
                        assert forall|i: int| 0 <= i < 255 implies #[trigger] self@[i] == reused(
                            before,
                            size as int,
                        )[i] by {
                            if i == index {
                                assert(stack_of(self.buckets@[i]@) =~= stack_of(
                                    old(self).buckets@[i]@,
                                ).skip(1));
                            } else {
                                assert(self.buckets@[i] == old(self).buckets@[i]);
                            }
                        }
                    }
                    assert(before[size - 1][0] == p);
                },
                None => {
                    assert(self@ =~= before) by {
                        assert forall|i: int| 0 <= i < 255 implies #[trigger] self@[i]
                            == before[i] by {
                            if i == index {
                                assert(self.buckets@[i]@ =~= old(self).buckets@[i]@);
                            } else {
                                assert(self.buckets@[i] == old(self).buckets@[i]);
                            }
                        }
                    }
                },
            }
        }
        r
    }

    /// Takes back the block at `ptr` of `size` words.
    pub fn dealloc_fixblks(&mut self, ptr: usize, size: u8)
        requires
            old(self).wf(),
            size != 0,
        ensures
            final(self).wf(),
            final(self)@ == recycled(old(self)@, size as int, ptr),
    {
        let index = (size - 1) as usize;
        let ghost before = self@;
        self.buckets[index].push(ptr);
        proof {
            assert(self.buckets@.len() == 255);
            assert(self@ =~= recycled(before, size as int, ptr)) by {
                assert forall|i: int| 0 <= i < 255 implies #[trigger] self@[i] == recycled(
                    before,
                    size as int,
                    ptr,
                )[i] by {
                    if i == index {
                        assert(stack_of(self.buckets@[i]@) =~= seq![ptr] + stack_of(
                            old(self).buckets@[i]@,
                        ));
                    } else {
                        assert(self.buckets@[i] == old(self).buckets@[i]);
                    }
                }
            }
        }
    }

    /// Takes back the block at `ptr` of `size` bytes.
    pub fn dealloc_fix(&mut self, ptr: usize, size: u16)
        requires
            old(self).wf(),
            1 <= size <= MAX_ALLOC_LEN,
        ensures
            final(self).wf(),
            final(self)@ == recycled(old(self)@, words_for(size as int), ptr),
    {
        self.dealloc_fixblks(ptr, ((size + 7) / 8) as u8)
    }
}

/// A stack kept in a vector, its top (the vector's last entry) first.
pub open spec fn stack_of(v: Seq<usize>) -> Seq<usize> {
    v.reverse()
}

/// What the growing arena is: its address space, how many of its bytes were handed out
/// and how many are backed by frames, the frames mapped so far (newest first), and
/// whether it is at work growing.
pub struct DynamicView {
    pub region: Span,
    pub next_avail: usize,
    pub next_unalloc: usize,
    pub pages: Seq<FixedView>,
    pub is_recursing: bool,
}

impl DynamicView {
    pub open spec fn wf(self) -> bool {
        &&& self.region.wf()
        &&& self.region.end <= usize::MAX
        &&& self.region.len() == VREGION_SIZE
        &&& self.region.start % 0x1000 == 0
        &&& self.next_avail <= self.next_unalloc <= VREGION_SIZE
        &&& self.next_unalloc % 0x1000 == 0
        &&& self.pages.len() * 0x1000 == self.next_unalloc
    }
}

/// No frame can be made: no slot is free, or no 4K untyped is in the small pool.
pub open spec fn out_of_frames(slots: Seq<Span>, pools: Pools) -> bool {
    slots.len() == 0 || pools.small.len() == 0
}

/// Too little is left to be sure of another frame: fewer than two free slots or fewer
/// than two 4K untypeds in the small pool, one of each for the frame and one for a page
/// table that it may need.
pub open spec fn short_of_frames(slots: Seq<Span>, pools: Pools) -> bool {
    slots.len() == 0 || take_one(slots).len() == 0 || pools.small.len() < 2
}

/// What a failed attempt to back a page leaves of the allocators, where the small pool
/// held two 4K untypeds or more: the slot and the untyped of the frame went back. A
/// page table that was made on the way stays: then its slot and its untyped are taken,
/// and it is the newest of the page tables.
pub open spec fn frame_went_back(
    slots: Seq<Span>,
    pools: Pools,
    tables: Seq<ObjectView>,
    slots_after: Seq<Span>,
    pools_after: Pools,
    tables_after: Seq<ObjectView>,
) -> bool {
    if tables_after == tables {
        pools_after == pools && points(slots_after) == points(slots)
    } else {
        &&& slots.len() > 0 && take_one(slots).len() > 0
        &&& tables_after == seq![
            ObjectView { slot: take_one(slots)[0].start as usize, parent: pools.small[1] },
        ] + tables
        &&& pools_after == (Pools { small: seq![pools.small[0]] + pools.small.skip(2), ..pools })
        &&& points(slots_after) == points(slots).remove(take_one(slots)[0].start)
    }
}

/// The views of a list of mapped frames.
pub open spec fn page_views(list: Seq<FixedMappedPage4K>) -> Seq<FixedView> {
    list.map_values(|p: FixedMappedPage4K| p@)
}

/// The growing arena: 256 MB of address space, backed by frames as the need arises.
pub struct DynamicAllocator {
    vregion: VRegion,
    next_avail: usize,
    next_unalloc: usize,
    pages: LinkedList<FixedMappedPage4K>,
    is_recursing: bool,
}

impl DynamicAllocator {
    pub closed spec fn view(&self) -> DynamicView {
        DynamicView {
            region: self.vregion@,
            next_avail: self.next_avail,
            next_unalloc: self.next_unalloc,
            pages: page_views(self.pages@),
            is_recursing: self.is_recursing,
        }
    }

    pub closed spec fn wf(&self) -> bool {
        self@.wf() && self.vregion.wf()
    }

    pub proof fn lemma_wf(&self)
        requires
            self.wf(),
        ensures
            self@.wf(),
    {
    }

    /// How many bytes were handed out, and how many are backed by frames.
    pub fn marks(&self) -> (r: (usize, usize))
        ensures
            r == (self@.next_avail, self@.next_unalloc),
    {
        (self.next_avail, self.next_unalloc)
    }

    /// The address at which the arena begins.
    pub fn start(&self) -> (r: usize)
        ensures
            r == self@.region.start,
    {
        self.vregion.start()
    }

    /// Takes the arena's address space from `vspace`.
    pub fn new(vspace: &mut RegionAllocator) -> (r: Result<DynamicAllocator, KError>)
        requires
            old(vspace).wf(),
        ensures
            final(vspace).wf(),
            first_fit(old(vspace)@, VREGION_SIZE as int) >= old(vspace)@.len() ==> r is Err
                && r->Err_0 == KError::NotEnoughMemory && final(vspace)@ == old(vspace)@,
            first_fit(old(vspace)@, VREGION_SIZE as int) < old(vspace)@.len() ==> r is Ok
                && r.unwrap().wf() && r.unwrap()@ == (DynamicView {
                region: old(vspace)@[first_fit(old(vspace)@, VREGION_SIZE as int)].front(
                    VREGION_SIZE as int,
                ),
                next_avail: 0,
                next_unalloc: 0,
                pages: Seq::empty(),
                is_recursing: false,
            }) && final(vspace)@ == crate::crust::freelist::take_n(
                old(vspace)@,
                VREGION_SIZE as int,
            ),
    {
        let vregion = allocate_vregion(vspace, VREGION_SIZE)?;
        let r = DynamicAllocator {
            vregion,
            next_avail: 0,
            next_unalloc: 0,
            pages: LinkedList::empty(),
            is_recursing: false,
        };
        assert(r@.pages =~= Seq::<FixedView>::empty());
        Ok(r)
    }

    /// Backs the next page of the arena with a fresh frame.
    #[verifier::rlimit(60)]
    fn add_fresh_page<S: Syscalls>(
        &mut self,
        untyped: &mut UntypedAllocator,
        slots: &mut SlotAllocator,
        tables: &mut PageTables,
        k: &mut Machine<S>,
    ) -> (r: Result<(), KError>)
        requires
            old(self).wf(),
            old(untyped).wf(),
            old(slots).wf(),
        ensures
            final(self).wf(),
            final(untyped).wf(),
            final(slots).wf(),
            final(slots).free().subset_of(old(slots).free()),
            old(self)@.next_unalloc + 0x1000 > VREGION_SIZE ==> r == Err::<(), KError>(
                KError::NotEnoughMemory,
            ),
            r is Ok ==> final(self)@.next_unalloc == old(self)@.next_unalloc + 0x1000
                && final(self)@.pages.len() == old(self)@.pages.len() + 1
                && final(self)@.pages.skip(1) == old(self)@.pages && final(self)@.pages[0].vaddr
                == old(self)@.region.start + old(self)@.next_unalloc && final(self)@.next_avail
                == old(self)@.next_avail && final(self)@.region == old(self)@.region
                && final(self)@.is_recursing == old(self)@.is_recursing,
            r matches Err(err) ==> err != KError::NoError && final(self)@ == old(self)@,
            extends(old(k)@, final(k)@),
            r is Err && agreed(old(k)@, final(k)@) && old(self)@.next_unalloc + 0x1000
                <= VREGION_SIZE ==> out_of_frames(final(slots)@, final(untyped)@),
            old(self)@.next_unalloc + 0x1000 > VREGION_SIZE ==> final(k)@ == old(k)@
                && final(slots)@
                == old(slots)@ && final(untyped)@ == old(untyped)@ && final(tables)@
                    == old(tables)@,
            r is Err && old(self)@.next_unalloc + 0x1000 <= VREGION_SIZE ==> refused_near_end(
                old(k)@,
                final(k)@,
                6,
            ) || short_of_frames(final(slots)@, final(untyped)@),
            r is Ok ==> final(self)@.pages[0].page.parent.size_bits == kernel::PAGE_4K_BITS
                && !final(slots).free().contains(final(self)@.pages[0].page.slot as int),
            r is Ok && old(untyped)@.small.len() > 0 ==> final(self)@.pages[0].page == (ObjectView {
                slot: old(slots)@[0].start as usize,
                parent: old(untyped)@.small[0],
            }) && retyped(
                old(k)@,
                old(untyped)@.small[0].slot,
                ObjectType::X864K,
                0,
                old(slots)@[0].start,
                1,
                final(k)@.subrange(0, old(k)@.len() as int + 4),
            ) && begins_with_map(
                final(k)@.subrange(0, old(k)@.len() as int + 4),
                final(k)@,
                old(slots)@[0].start as usize,
                (old(self)@.region.start + old(self)@.next_unalloc) as usize,
                true,
            ),
            r is Err && old(untyped)@.small.len() >= 2 ==> frame_went_back(
                old(slots)@,
                old(untyped)@,
                old(tables)@,
                final(slots)@,
                final(untyped)@,
                final(tables)@,
            ),
    {
        if self.next_unalloc + kernel::PAGE_4K_SIZE > self.vregion.len() {
            Err(KError::NotEnoughMemory)
        } else {
            let page = allocate_page4k(untyped, slots, k)?;
            let ghost k1 = k@;
            let ghost frame = page@;
            let ghost s1 = slots@;
            let ghost p1 = untyped@;

            let ghost vaddr = (self.next_unalloc + self.vregion.start()) as usize;
            match page.map_into_addr(
                self.next_unalloc + self.vregion.start(),
                true,
                slots,
                untyped,
                tables,
                k,
            ) {
                Ok(mapping) => {
                    proof {
                        if old(untyped)@.small.len() > 0 {
                            lemma_retyped_len(
                                old(k)@,
                                old(untyped)@.small[0].slot,
                                ObjectType::X864K,
                                0,
                                old(slots)@[0].start,
                                1,
                                k1,
                            );
                            assert(k@.subrange(0, old(k)@.len() as int + 4) =~= k1);
                        }
                    }
                    self.next_unalloc += kernel::PAGE_4K_SIZE;
                    let ghost before = page_views(self.pages@);
                    let _ = self.pages.pushmut(mapping);
                    assert(page_views(self.pages@) =~= seq![mapping@] + before);
                    assert(page_views(self.pages@).skip(1) =~= before);
                    Ok(())
                },
                Err((page, err)) => {
                    let ghost k2 = k@;
                    let ghost s2 = slots@;
                    let ghost p2 = untyped@;
                    free_page4k(untyped, slots, page, k);
                    proof {
                        if old(untyped)@.small.len() >= 2 {
                            let small = old(untyped)@.small;
                            let s0 = old(slots)@[0].start;
                            lemma_take_one_is_take_n(old(slots)@);
                            lemma_take(old(slots)@, 1);
                            assert(old(slots)@[0].front(1).points() =~= set![s0]);
                            assert(points(s1) =~= points(old(slots)@).remove(s0));
                            assert(points(slots@) =~= points(s2).insert(s0));
                            assert(p1.small =~= small.skip(1));
                            if tables@ == old(tables)@ {
                                assert(p2 == p1);
                                assert(seq![small[0]] + small.skip(1) =~= small);
                                assert(points(s2) == points(s1));
                                assert(points(slots@) =~= points(old(slots)@));
                            } else {
                                assert(s1.len() > 0);
                                let t = s1[0].start;
                                lemma_take_one_is_take_n(s1);
                                lemma_take(s1, 1);
                                assert(s1[0].front(1).points() =~= set![t]);
                                assert(points(s2) =~= points(s1).remove(t));
                                assert(small.skip(1).skip(1) =~= small.skip(2));
                                assert(points(slots@) =~= points(old(slots)@).remove(t));
                            }
                        }
                        if refused_near_end(k1, k2, 4) {
                            lemma_refused_extends(old(k)@, k1, k2, k@, 4, 2);
                        } else {
                            assert(slots@ == merge(s2, unit(frame.slot as int)));
                            if s2.len() == 0 {
                                assert(slots@ =~= seq![unit(frame.slot as int)]);
                                assert(slots@[0].len() == 1);
                                assert(take_one(slots@) =~= Seq::<Span>::empty());
                            }
                        }
                        lemma_agreed_parts(k1, k2, k@);
                        lemma_agreed_parts(old(k)@, k1, k@);
                        if agreed(k1, k2) {
                            lemma_first_map_agreed(k1, k2, frame.slot, vaddr, true);
                        }
                    }
                    Err(err)
                },
            }
        }
    }

    /// Makes sure that the first `min_unalloc` bytes of the arena are backed by frames,
    /// and tries for eight pages more. Must not be called while the arena is at work
    /// growing, unless the bytes are backed already.
    fn alloc_forward<S: Syscalls>(
        &mut self,
        min_unalloc: usize,
        untyped: &mut UntypedAllocator,
        slots: &mut SlotAllocator,
        tables: &mut PageTables,
        k: &mut Machine<S>,
    ) -> (r: Result<(), KError>)
        requires
            old(self).wf(),
            old(untyped).wf(),
            old(slots).wf(),
            min_unalloc + ALLOCATION_BUFFER <= usize::MAX,
            old(self)@.is_recursing ==> old(self)@.next_unalloc >= min_unalloc,
        ensures
            final(self).wf(),
            final(untyped).wf(),
            final(slots).wf(),
            final(slots).free().subset_of(old(slots).free()),
            final(self)@.region == old(self)@.region,
            final(self)@.next_avail == old(self)@.next_avail,
            final(self)@.is_recursing == old(self)@.is_recursing,
            final(self)@.next_unalloc >= old(self)@.next_unalloc,
            r is Ok <==> final(self)@.next_unalloc >= min_unalloc,
            r matches Err(err) ==> err != KError::NoError,
            old(self)@.is_recursing ==> final(self)@ == old(self)@ && final(slots)@ == old(slots)@,
            !old(self)@.is_recursing && old(self)@.next_unalloc >= min_unalloc + ALLOCATION_BUFFER
                ==> final(self)@ == old(self)@ && final(slots)@ == old(slots)@,
            min_unalloc > VREGION_SIZE ==> r is Err,
            old(self)@.is_recursing || old(self)@.next_unalloc >= min_unalloc + ALLOCATION_BUFFER
                ==> final(k)@ == old(k)@,
            extends(old(k)@, final(k)@),
            r is Err && agreed(old(k)@, final(k)@) && min_unalloc <= VREGION_SIZE ==> out_of_frames(
                final(slots)@,
                final(untyped)@,
            ),
            !old(self)@.is_recursing && agreed(old(k)@, final(k)@) && !out_of_frames(
                final(slots)@,
                final(untyped)@,
            ) ==> final(self)@.next_unalloc >= min_unalloc + ALLOCATION_BUFFER
                || final(self)@.next_unalloc == VREGION_SIZE,
            !old(self)@.is_recursing && willing(old(k)@, final(k)@) && !short_of_frames(
                final(slots)@,
                final(untyped)@,
            ) ==> final(self)@.next_unalloc >= min_unalloc + ALLOCATION_BUFFER
                || final(self)@.next_unalloc == VREGION_SIZE,
            r is Err && willing(old(k)@, final(k)@) && min_unalloc <= VREGION_SIZE
                ==> short_of_frames(final(slots)@, final(untyped)@),
            (final(self)@.next_unalloc - old(self)@.next_unalloc) % 0x1000 == 0,
    {
        if self.is_recursing {
            Ok(())
        } else {
            self.is_recursing = true;
            while self.next_unalloc < min_unalloc + ALLOCATION_BUFFER
                invariant
                    extends(old(k)@, k@),
                    self.wf(),
                    untyped.wf(),
                    slots.wf(),
                    slots.free().subset_of(old(slots).free()),
                    min_unalloc + ALLOCATION_BUFFER <= usize::MAX,
                    self@.region == old(self)@.region,
                    self@.next_avail == old(self)@.next_avail,
                    self@.is_recursing,
                    self@.next_unalloc >= old(self)@.next_unalloc,
                    (self@.next_unalloc - old(self)@.next_unalloc) % 0x1000 == 0,
                    self@.next_unalloc == old(self)@.next_unalloc ==> self@.pages
                        == old(self)@.pages
                        && slots@ == old(slots)@ && k@ == old(k)@,
                    !old(self)@.is_recursing,
                    old(self)@.next_unalloc >= min_unalloc + ALLOCATION_BUFFER
                        ==> self@.next_unalloc == old(self)@.next_unalloc,
                decreases VREGION_SIZE - self@.next_unalloc,
            {
                let ghost k_before = k@;
                if let Err(err) = self.add_fresh_page(untyped, slots, tables, k) {
                    proof {
                        lemma_agreed_parts(old(k)@, k_before, k@);
                        if refused_near_end(k_before, k@, 6) {
                            lemma_refused_extends(old(k)@, k_before, k@, k@, 6, 0);
                            lemma_refused_not_willing(old(k)@, k@, 6);
                        }
                    }
                    self.is_recursing = false;
                    if self.next_unalloc >= min_unalloc {
                        return Ok(());
                    } else {
                        return Err(err);
                    }
                }
            }
            self.is_recursing = false;
            Ok(())
        }
    }

    /// Hands out the next `size` words of the arena, backed by frames; nothing, if frames
    /// or address space run out.
    pub fn alloc_fixblks<S: Syscalls>(
        &mut self,
        size: u8,
        untyped: &mut UntypedAllocator,
        slots: &mut SlotAllocator,
        tables: &mut PageTables,
        k: &mut Machine<S>,
    ) -> (r: Option<usize>)
        requires
            old(self).wf(),
            old(untyped).wf(),
            old(slots).wf(),
            old(self)@.is_recursing ==> old(self)@.next_unalloc >= old(self)@.next_avail + 8
                * size,
        ensures
            final(self).wf(),
            final(untyped).wf(),
            final(slots).wf(),
            final(slots).free().subset_of(old(slots).free()),
            final(self)@.region == old(self)@.region,
            final(self)@.is_recursing == old(self)@.is_recursing,
            r matches Some(ptr) ==> ptr == old(self)@.region.start + old(self)@.next_avail
                && final(self)@.next_avail == old(self)@.next_avail + 8 * size,
            r is None ==> final(self)@.next_avail == old(self)@.next_avail
                && final(self)@.next_unalloc < old(self)@.next_avail + 8 * size,
            old(self)@.next_unalloc >= old(self)@.next_avail + 8 * size + ALLOCATION_BUFFER ==> r
                is Some && final(self)@.next_unalloc == old(self)@.next_unalloc && final(slots)@
                == old(slots)@,
            old(self)@.next_avail + 8 * size > VREGION_SIZE ==> r is None,
            old(self)@.next_unalloc >= old(self)@.next_avail + 8 * size + ALLOCATION_BUFFER
                ==> final(k)@
                == old(k)@,
            extends(old(k)@, final(k)@),
            r is None && agreed(old(k)@, final(k)@) && old(self)@.next_avail + 8 * size
                <= VREGION_SIZE ==> out_of_frames(final(slots)@, final(untyped)@),
            !old(self)@.is_recursing && agreed(old(k)@, final(k)@) && !out_of_frames(
                final(slots)@,
                final(untyped)@,
            ) ==> final(self)@.next_unalloc >= old(self)@.next_avail + 8 * size + ALLOCATION_BUFFER
                || final(self)@.next_unalloc == VREGION_SIZE,
            !old(self)@.is_recursing && willing(old(k)@, final(k)@) && !short_of_frames(
                final(slots)@,
                final(untyped)@,
            ) ==> final(self)@.next_unalloc >= old(self)@.next_avail + 8 * size + ALLOCATION_BUFFER
                || final(self)@.next_unalloc == VREGION_SIZE,
            r is None && willing(old(k)@, final(k)@) && old(self)@.next_avail + 8 * size
                <= VREGION_SIZE ==> short_of_frames(final(slots)@, final(untyped)@),
    {
        let real_size = (size as usize) * 8;
        let until = self.next_avail + real_size;
        if let Err(_) = self.alloc_forward(until, untyped, slots, tables, k) {
            return None;
        }
        let ptr = self.next_avail + self.vregion.start();
        self.next_avail += real_size;
        Some(ptr)
    }
}

/// The heap: the recycler, the fixed arena, and the growing arena once it was set up.
pub struct Heap {
    pub recycle: RecycleAllocator,
    pub fixed: FixedAllocator,
    pub dynamic: Option<DynamicAllocator>,
}

impl Heap {
    pub open spec fn wf(&self) -> bool {
        &&& self.recycle.wf()
        &&& self.fixed.wf()
        &&& self.dynamic matches Some(d) ==> d.wf() && !d@.is_recursing
    }

    /// The heap whose fixed arena lies at `base`, with no growing arena yet.
    pub fn new(base: usize) -> (r: Heap)
        requires
            base + 8 * HEAP_U64 <= usize::MAX,
        ensures
            r.wf(),
            r.dynamic is None,
            r.fixed.base() == base,
            r.fixed.used() == 0,
            forall|i: int| 0 <= i < 255 ==> (#[trigger] r.recycle@[i]).len() == 0,
    {
        Heap { recycle: RecycleAllocator::new(), fixed: FixedAllocator::new(base), dynamic: None }
    }
}

/// Hands out a block of `size` bytes, rounded up to whole words: the block of that size
/// that was freed last, or else the next block of the fixed arena, or else the next
/// block of the growing arena.
pub fn alloc_fix<S: Syscalls>(
    heap: &mut Heap,
    size: u16,
    untyped: &mut UntypedAllocator,
    slots: &mut SlotAllocator,
    tables: &mut PageTables,
    k: &mut Machine<S>,
) -> (r: Option<usize>)
    requires
        old(heap).wf(),
        old(untyped).wf(),
        old(slots).wf(),
        1 <= size <= MAX_ALLOC_LEN,
    ensures
        final(heap).wf(),
        final(untyped).wf(),
        final(slots).wf(),
        final(slots).free().subset_of(old(slots).free()),
        old(heap).recycle@[words_for(size as int) - 1].len() > 0 ==> r == Some(
            old(heap).recycle@[words_for(size as int) - 1][0],
        ) && final(heap).recycle@ == reused(old(heap).recycle@, words_for(size as int))
            && final(heap).fixed == old(heap).fixed && final(heap).dynamic
            == old(heap).dynamic && final(slots)@
            == old(slots)@,
        old(heap).recycle@[words_for(size as int) - 1].len() == 0 ==> final(heap).recycle@
            == old(heap).recycle@,
        old(heap).recycle@[words_for(size as int) - 1].len() == 0 && old(heap).fixed.used()
            + words_for(size as int) <= HEAP_U64 ==> r == Some(
            (old(heap).fixed.base() + 8 * old(heap).fixed.used()) as usize,
        ) && final(heap).fixed.used() == old(heap).fixed.used() + words_for(size as int)
            && final(heap).dynamic == old(heap).dynamic && final(slots)@ == old(slots)@,
        old(heap).recycle@[words_for(size as int) - 1].len() == 0 && old(heap).fixed.used()
            + words_for(size as int) > HEAP_U64 ==> final(heap).fixed == old(heap).fixed
                && (old(heap).dynamic is None ==> r is None && final(heap).dynamic is None)
                && (old(heap).dynamic
            matches Some(d) ==> final(heap).dynamic is Some && (r matches Some(ptr) ==> ptr
            == d@.region.start + d@.next_avail && final(heap).dynamic.unwrap()@.next_avail
            == d@.next_avail + 8 * words_for(size as int))),
        old(heap).recycle@[words_for(size as int) - 1].len() > 0
            || old(heap).fixed.used() + words_for(
            size as int,
        ) <= HEAP_U64 || old(heap).dynamic is None ==> final(k)@ == old(k)@,
        extends(old(k)@, final(k)@),
        r is None ==> old(heap).recycle@[words_for(size as int) - 1].len() == 0
            && old(heap).fixed.used() + words_for(size as int) > HEAP_U64,
        r is None && agreed(old(k)@, final(k)@) ==> old(heap).dynamic is None
            || old(heap).dynamic.unwrap()@.next_avail + 8 * words_for(size as int) > VREGION_SIZE
            || out_of_frames(final(slots)@, final(untyped)@),
        r is None && willing(old(k)@, final(k)@) ==> old(heap).dynamic is None
            || old(heap).dynamic.unwrap()@.next_avail + 8 * words_for(size as int) > VREGION_SIZE
            || short_of_frames(final(slots)@, final(untyped)@),
{
    let blks = ((size + 7) / 8) as u8;
    proof {
        heap.recycle.lemma_wf();
    }
    match heap.recycle.alloc_fixblks(blks) {
        Some(ptr) => Some(ptr),
        None => {
            match heap.fixed.alloc_fixblks(blks) {
                Some(ptr) => Some(ptr),
                None => {
                    match &mut heap.dynamic {
                        Some(dyna) => dyna.alloc_fixblks(blks, untyped, slots, tables, k),
                        None => None,
                    }
                },
            }
        },
    }
}

/// Takes back the block at `ptr` of `size` bytes: it is the next block of its size to be
/// handed out.
pub fn dealloc_fix(heap: &mut Heap, ptr: usize, size: u16)
    requires
        old(heap).wf(),
        1 <= size <= MAX_ALLOC_LEN,
    ensures
        final(heap).wf(),
        final(heap).recycle@ == recycled(old(heap).recycle@, words_for(size as int), ptr),
        final(heap).fixed == old(heap).fixed,
        final(heap).dynamic == old(heap).dynamic,
{
    heap.recycle.dealloc_fix(ptr, size)
}

/// Sets up the growing arena, once the region allocator is ready.
pub fn init_allocator(heap: &mut Heap, vspace: &mut RegionAllocator) -> (r: Result<(), KError>)
    requires
        old(heap).wf(),
        old(heap).dynamic is None,
        old(vspace).wf(),
    ensures
        final(heap).wf(),
        final(vspace).wf(),
        final(heap).recycle == old(heap).recycle,
        final(heap).fixed == old(heap).fixed,
        first_fit(old(vspace)@, VREGION_SIZE as int) >= old(vspace)@.len() ==> r == Err::<
            (),
            KError,
        >(KError::NotEnoughMemory) && final(heap).dynamic is None && final(vspace)@ == old(vspace)@,
        first_fit(old(vspace)@, VREGION_SIZE as int) < old(vspace)@.len() ==> r is Ok
            && final(heap).dynamic is Some && final(heap).dynamic.unwrap()@ == (DynamicView {
            region: old(vspace)@[first_fit(old(vspace)@, VREGION_SIZE as int)].front(
                VREGION_SIZE as int,
            ),
            next_avail: 0,
            next_unalloc: 0,
            pages: Seq::empty(),
            is_recursing: false,
        }) && final(vspace)@ == crate::crust::freelist::take_n(old(vspace)@, VREGION_SIZE as int),
{
    let alloc = DynamicAllocator::new(vspace)?;
    heap.dynamic = Some(alloc);
    Ok(())
}

} // verus!
