use vstd::prelude::*;
use crate::mantle::kio::extends;
use crate::kobject::steps::group_record;
use crate::crust;
use crate::crust::capalloc::{allocate_cap_slot, free_cap_slot, SlotAllocator};
use crate::crust::freelist::{first_fit, holds_none_of, merge, take_n, take_one};
use crate::crust::vspace::{allocate_vregion, free_vregion, RegionAllocator, VRegion};
use crate::intervals::Span;
use crate::kobject::cap::{deleted, Cap, CapSlot};
use crate::kobject::notification::ObjectView;
use crate::kobject::untyped::Untyped;
use crate::mantle::calls;
use crate::kobject::steps::{group_agreed, lemma_retyped_len, retyped};
use crate::mantle::kernel::ObjectType;
use crate::mantle::calls::{
    agreed,
    invocation,
    lemma_agreed_parts,
    lemma_not_agreed_refused,
    lemma_refused_extends,
    made_good,
    no_refusal,
    refused_near_end,
    retype_steps,
    verdict,
    willing,
};
use crate::mantle::kernel;
use crate::mantle::kernel::{KError, PAGE_2M_SIZE, PAGE_4K_BITS, PAGE_4K_SIZE};
use crate::mantle::kio::{answer_of, last_answer, Answer, Event, Syscalls, Machine};
use crate::memory::linkedlist::LinkedList;
use crate::memory::untyped::{
    allocate_untyped_4k,
    free_untyped_4k,
    refilled,
    slots_for_refill,
    Pools,
    UntypedAllocator,
};

verus! {

broadcast use group_record, group_agreed;

/// A frame of 4K bytes that is not mapped.
#[derive(Debug)]
pub struct Page4K {
    cap: Cap,
    parent: Untyped,
}

/// The page tables that were mapped along the way, newest first.
pub struct PageTables {
    tables: LinkedList<MappedPageTable>,
}

/// The views of a list of mapped page tables.
pub open spec fn table_views(list: Seq<MappedPageTable>) -> Seq<ObjectView> {
    list.map_values(|t: MappedPageTable| t@)
}

impl PageTables {
    pub closed spec fn view(&self) -> Seq<ObjectView> {
        table_views(self.tables@)
    }

    pub fn new() -> (r: PageTables)
        ensures
            r@.len() == 0,
    {
        PageTables { tables: LinkedList::empty() }
    }

    /// How many page tables were mapped.
    pub fn len(&self) -> (r: usize)
        requires
            self@.len() <= usize::MAX,
        ensures
            r == self@.len(),
    {
        self.tables.len()
    }

    fn push(&mut self, table: MappedPageTable)
        ensures
            final(self)@ == seq![table@] + old(self)@,
    {
        let ghost before = table_views(self.tables@);
        let _ = self.tables.pushmut(table);
        assert(table_views(self.tables@) =~= seq![table@] + before);
    }
}

/// The address of the 2M-aligned stretch of address space that `vaddr` lies in: what one
/// page table maps.
pub fn page_table_base(vaddr: usize) -> (r: usize)
    ensures
        r == vaddr - vaddr % 0x20_0000,
        r % 0x20_0000 == 0,
{
    vaddr - vaddr % PAGE_2M_SIZE
}

/// The steps of mapping the frame in slot `slot` at `vaddr` in the root task's address
/// space, for reading, and for writing too if `writable`.
pub open spec fn page_map_steps(slot: usize, vaddr: usize, writable: bool, answer: Answer) -> Seq<
    Event,
> {
    seq![
        Event::SetCap { index: 0, cptr: crust::ROOT_PAGEDIR },
        invocation(
            slot,
            kernel::TAG_X86_PAGE_MAP,
            1,
            3,
            vaddr,
            if writable {
                3usize
            } else {
                2usize
            },
            0,
            0,
            answer,
        ),
    ]
}

/// The kernel agreed to a step of two, an entry in the IPC buffer and an invocation,
/// exactly when its verdict on the invocation was "no error".
pub proof fn lemma_pair_agreed(before: Seq<Event>, first: Event, second: Event, after: Seq<Event>)
    requires
        after == before + seq![first, second],
        no_refusal(first),
    ensures
        agreed(before, after) <==> no_refusal(second),
{
    let n = before.len() as int;
    assert(after[n] == first && after[n + 1] == second);
    if agreed(before, after) {
        assert(no_refusal(after[n + 1]));
    }
}

/// The kernel's verdict on the first mapping of a frame that the record `after` holds
/// beyond the record `before`.
pub open spec fn first_map_verdict(before: Seq<Event>, after: Seq<Event>) -> KError {
    verdict(answer_of(after[before.len() as int + 1]))
}

/// The record `after` begins with the record `before` and the mapping of the frame in
/// slot `slot` at `vaddr`.
pub open spec fn begins_with_map(
    before: Seq<Event>,
    after: Seq<Event>,
    slot: usize,
    vaddr: usize,
    writable: bool,
) -> bool {
    &&& after.len() >= before.len() + 2
    &&& after.subrange(0, before.len() as int + 2) == before + page_map_steps(
        slot,
        vaddr,
        writable,
        answer_of(after[before.len() as int + 1]),
    )
}

/// Where the kernel agreed to all that the record holds beyond `before`, it agreed to
/// the first mapping.
pub proof fn lemma_first_map_agreed(
    before: Seq<Event>,
    after: Seq<Event>,
    slot: usize,
    vaddr: usize,
    writable: bool,
)
    requires
        begins_with_map(before, after, slot, vaddr, writable),
        agreed(before, after),
    ensures
        first_map_verdict(before, after) == KError::NoError,
{
    let n = before.len() as int;
    let steps = page_map_steps(slot, vaddr, writable, answer_of(after[n + 1]));
    assert(after.subrange(0, n + 2)[n + 1] == after[n + 1]);
    assert((before + steps)[n + 1] == steps[1]);
    assert(no_refusal(after[n + 1]));
}

/// The kernel refused nothing of what the record `after` holds beyond `before` but one
/// thing: after `lead` steps it missed a page table for the first mapping of a frame.
pub open spec fn agreed_but_table(before: Seq<Event>, after: Seq<Event>, lead: int) -> bool {
    let n = before.len() as int + lead;
    &&& lead >= 0
    &&& after.len() >= n + 2
    &&& agreed(before, after.subrange(0, n))
    &&& verdict(answer_of(after[n + 1])) == KError::FailedLookup
    &&& agreed(after.subrange(0, n + 2), after)
}

/// What `agreed_but_table` says of the whole record holds of the part that a mapping
/// made, where the steps before the mapping are `mid` and the mapping left `done`.
pub proof fn lemma_agreed_but_table(
    before: Seq<Event>,
    mid: Seq<Event>,
    done: Seq<Event>,
    after: Seq<Event>,
    lead: int,
)
    requires
        agreed_but_table(before, after, lead),
        extends(before, mid),
        extends(mid, done),
        extends(done, after),
        mid.len() <= before.len() + lead,
        done.len() >= mid.len() + 2 || mid.len() < before.len() + lead,
    ensures
        agreed(before, mid),
        mid.len() == before.len() + lead ==> first_map_verdict(mid, done) == KError::FailedLookup
            && agreed(done.subrange(0, mid.len() as int + 2), done) && mid == after.subrange(
            0,
            before.len() as int + lead,
        ),
{
    let n = before.len() as int + lead;
    let head = after.subrange(0, n);
    assert forall|i: int| before.len() <= i < mid.len() implies no_refusal(#[trigger] mid[i]) by {
        assert(done.subrange(0, mid.len() as int)[i] == done[i]);
        assert(after.subrange(0, done.len() as int)[i] == after[i]);
        assert(head[i] == after[i]);
        assert(no_refusal(head[i]));
    }
    if mid.len() == n {
        assert(mid =~= head) by {
            assert forall|i: int| 0 <= i < n implies mid[i] == head[i] by {
                assert(done.subrange(0, mid.len() as int)[i] == done[i]);
                assert(after.subrange(0, done.len() as int)[i] == after[i]);
            }
        }
        assert(after.subrange(0, done.len() as int)[n + 1] == after[n + 1]);
        let cut = done.subrange(0, n + 2);
        let whole = after.subrange(0, n + 2);
        assert forall|i: int| cut.len() <= i < done.len() implies no_refusal(#[trigger] done[i]) by {
            assert(after.subrange(0, done.len() as int)[i] == after[i]);
            assert(no_refusal(after[i]));
        }
    }
}

/// The steps of mapping the page table in slot `slot` at `vaddr` in the root task's
/// address space.
pub open spec fn table_map_steps(slot: usize, vaddr: usize, answer: Answer) -> Seq<Event> {
    seq![
        Event::SetCap { index: 0, cptr: crust::ROOT_PAGEDIR },
        invocation(slot, kernel::TAG_X86_PAGETABLE_MAP, 1, 2, vaddr, 0, 0, 0, answer),
    ]
}

/// The record `after` is the record `before` with the unmapping of the frame in slot
/// `slot` and, where the kernel refused it, the fault.
pub open spec fn unmapped(before: Seq<Event>, slot: usize, after: Seq<Event>) -> bool {
    let n = before.len() as int;
    let step = invocation(slot, kernel::TAG_X86_PAGE_UNMAP, 0, 0, 0, 0, 0, 0, answer_of(after[n]));
    if after.len() == n + 1 {
        after == before.push(step) && verdict(answer_of(after[n])) == KError::NoError
    } else {
        after == before.push(step).push(Event::Fault { err: verdict(answer_of(after[n])) })
            && verdict(answer_of(after[n])) != KError::NoError
    }
}

/// The record `after` is the record `before` with the making of a page table in slot
/// `slot` from the untyped in slot `donor`, its mapping at `vaddr` if it was made, and
/// its deletion if it was made and not mapped.
pub open spec fn table_steps(
    before: Seq<Event>,
    donor: usize,
    slot: usize,
    vaddr: usize,
    after: Seq<Event>,
) -> bool {
    let n = before.len() as int;
    let made = after.subrange(0, n + 4);
    let mapped = after.subrange(0, n + 6);
    &&& after.len() >= n + 4
    &&& retyped(before, donor, ObjectType::X86PageTableObject, 0, slot as int, 1, made)
    &&& if verdict(last_answer(made)) != KError::NoError {
        after == made
    } else {
        &&& after.len() >= n + 6
        &&& mapped == made + table_map_steps(slot, vaddr, last_answer(mapped))
        &&& if verdict(last_answer(mapped)) == KError::NoError {
            after == mapped
        } else {
            deleted(mapped, slot, after)
        }
    }
}

/// The kernel's verdict on the making and the mapping of a page table that the record
/// `after` holds beyond `before`: its verdict on the making if it refused that, else its
/// verdict on the mapping.
pub open spec fn table_verdict(before: Seq<Event>, after: Seq<Event>) -> KError {
    let n = before.len() as int;
    let made = verdict(last_answer(after.subrange(0, n + 4)));
    if made != KError::NoError {
        made
    } else {
        verdict(last_answer(after.subrange(0, n + 6)))
    }
}

/// Makes a page table from a fresh 4K untyped and maps it at `vaddr`; it is kept in
/// `tables`. If any step fails, what was taken goes back and the error is returned.
pub fn map_page_table<S: Syscalls>(
    vaddr: usize,
    slots: &mut SlotAllocator,
    untyped: &mut UntypedAllocator,
    tables: &mut PageTables,
    k: &mut Machine<S>,
) -> (r: KError)
    requires
        old(slots).wf(),
        old(untyped).wf(),
    ensures
        final(slots).wf(),
        final(untyped).wf(),
        final(slots).free().subset_of(old(slots).free()),
        old(slots)@.len() == 0 ==> r == KError::NotEnoughMemory,
        r == KError::NoError ==> final(tables)@.len() == old(tables)@.len() + 1
            && final(tables)@.skip(1) == old(tables)@ && final(tables)@[0].slot
            == old(slots)@[0].start && final(tables)@[0].parent.size_bits == PAGE_4K_BITS
            && !final(slots).free().contains(
            final(tables)@[0].slot as int,
        ),
        r == KError::NoError && old(untyped)@.small.len() > 0 ==> final(tables)@[0].parent
            == old(untyped)@.small[0] && final(untyped)@ == (Pools {
            small: old(untyped)@.small.skip(1),
            ..old(untyped)@
        }) && final(slots)@ == take_one(old(slots)@),
        old(slots)@.len() == 0 ==> final(slots)@ == old(slots)@ && final(untyped)@ == old(untyped)@
            && final(tables)@ == old(tables)@,
        r != KError::NoError ==> (final(untyped)@ == old(untyped)@ && final(tables)@ == old(tables)@
            && (old(slots)@.len() == 0 && final(slots)@ == old(slots)@ || old(untyped)@.small.len()
            == 0)) || refused_near_end(old(k)@, final(k)@, 4),
        table_from_large(old(slots)@, old(untyped)@) && agreed(old(k)@, final(k)@) ==> r
            == KError::NoError && (final(untyped)@, final(slots)@, final(tables)@[0].parent)
            == refilled(old(untyped)@, take_one(old(slots)@)),
        old(slots)@.len() > 0 && old(untyped)@.small.len() > 0 ==> table_kept(
            r == KError::NoError,
            old(slots)@,
            old(untyped)@,
            old(tables)@,
            final(slots)@,
            final(untyped)@,
            final(tables)@,
        ),
        r != KError::NoError ==> final(tables)@ == old(tables)@,
        r != KError::NoError && old(untyped)@.small.len() > 0 ==> final(slots).free()
            == old(slots).free() && final(untyped)@ == old(untyped)@,
        old(slots)@.len() == 0 ==> final(k)@ == old(k)@,
        extends(old(k)@, final(k)@),
        old(slots)@.len() > 0 && old(untyped)@.small.len() > 0 ==> (r == KError::NoError
            <==> agreed(
            old(k)@,
            final(k)@,
        )),
        old(slots)@.len() > 0 && old(untyped)@.small.len() > 0 ==> r == table_verdict(
            old(k)@,
            final(k)@,
        ) && table_steps(
            old(k)@,
            old(untyped)@.small[0].slot,
            old(slots)@[0].start as usize,
            vaddr,
            final(k)@,
        ),
{
    let cslot = match allocate_cap_slot(slots) {
        Ok(p) => p,
        Err(err) => {
            return err;
        },
    };
    let found = allocate_untyped_4k(untyped, slots, k);
    let ghost k0 = k@;
    proof {
        lemma_agreed_parts(old(k)@, k0, k0);
    }
    let ut = match found {
        Ok(p) => p,
        Err(err) => {
            free_cap_slot(slots, cslot);
            assert(slots.free() =~= old(slots).free());
            return err;
        },
    };
    let ghost mid = untyped@;
    let made = ut.become_page_table(cslot, k);
    let ghost k1 = k@;
    proof {
        lemma_retyped_len(
            k0,
            ut@.slot,
            ObjectType::X86PageTableObject,
            0,
            cslot@ as int,
            1,
            k1,
        );
    }
    let page_table: PageTable = match made {
        Ok(p) => p,
        Err((err, ut, cslot)) => {
            free_untyped_4k(untyped, ut);
            free_cap_slot(slots, cslot);
            proof {
                lemma_not_agreed_refused(k0, k1, 4);
                lemma_refused_extends(old(k)@, k0, k1, k@, 4, 0);
                if old(untyped)@.small.len() > 0 {
                    assert(slots.free() =~= old(slots).free());
                    assert(untyped@.small =~= old(untyped)@.small);
                    assert(k@.subrange(0, k0.len() as int + 4) =~= k1);
                }
            }
            return err;
        },
    };
    let ghost table = page_table@;
    let mapped = page_table.map_into_addr(vaddr, k);
    let ghost k2 = k@;
    proof {
        lemma_pair_agreed(k1, k2[k1.len() as int], k2[k1.len() as int + 1], k2);
        lemma_agreed_parts(k0, k1, k2);
        lemma_agreed_parts(old(k)@, k0, k2);
    }
    match mapped {
        Ok(pt) => {
            tables.push(pt);
            assert(tables@.skip(1) =~= old(tables)@);
            proof {
                assert(k@.subrange(0, k0.len() as int + 4) =~= k1);
                assert(k@.subrange(0, k0.len() as int + 6) =~= k2);
            }
            KError::NoError
        },
        Err((pt, err)) => {
            let (ut, cslot) = pt.free(k);
            proof {
                lemma_agreed_parts(k0, k2, k@);
                lemma_agreed_parts(old(k)@, k0, k@);
                lemma_not_agreed_refused(k1, k2, 2);
                lemma_refused_extends(old(k)@, k1, k2, k@, 2, 2);
                assert(k@.subrange(0, k0.len() as int + 4) =~= k1);
                assert(k@.subrange(0, k0.len() as int + 6) =~= k2);
            }
            free_untyped_4k(untyped, ut);
            free_cap_slot(slots, cslot);
            proof {
                if old(untyped)@.small.len() > 0 {
                    assert(slots.free() =~= old(slots).free());
                    assert(untyped@.small =~= old(untyped)@.small);
                }
            }
            err
        },
    }
}

/// The record `after` is the record `before` with the mapping of the frame in slot
/// `frame` at `vaddr` where the kernel first missed a page table: the first mapping, the
/// making and the mapping of the page table in slot `slot` from the untyped in slot
/// `donor`, and, if that went well, the second mapping of the frame.
pub open spec fn mapped_with_table(
    before: Seq<Event>,
    after: Seq<Event>,
    frame: usize,
    vaddr: usize,
    writable: bool,
    donor: usize,
    slot: usize,
) -> bool {
    let n = before.len() as int;
    let first = after.subrange(0, n + 2);
    let second = after.subrange(0, n + 8);
    let base = (vaddr - vaddr % 0x20_0000) as usize;
    &&& begins_with_map(before, after, frame, vaddr, writable)
    &&& if table_verdict(first, after) != KError::NoError {
        table_steps(first, donor, slot, base, after)
    } else {
        &&& after.len() == n + 10
        &&& table_steps(first, donor, slot, base, second)
        &&& after == second + page_map_steps(frame, vaddr, writable, last_answer(after))
    }
}

/// The small pool is empty but can be filled for a page table whose slot is taken
/// first: the large pool holds a 2M untyped, and the slots that are left suffice to split
/// it into 4K untypeds.
pub open spec fn table_from_large(slots: Seq<Span>, pools: Pools) -> bool {
    slots.len() > 0 && pools.small.len() == 0 && pools.large.len() > 0 && slots_for_refill(
        take_one(slots),
    )
}

/// What the making of a page table on the way leaves of the allocators: where the
/// table was made and mapped, one slot and one 4K untyped less and one table more,
/// whatever becomes of the frame; else everything as it was.
pub open spec fn table_kept(
    made: bool,
    slots: Seq<Span>,
    pools: Pools,
    tables: Seq<ObjectView>,
    slots_after: Seq<Span>,
    pools_after: Pools,
    tables_after: Seq<ObjectView>,
) -> bool {
    if made {
        &&& slots_after == take_one(slots)
        &&& pools_after == (Pools { small: pools.small.skip(1), ..pools })
        &&& tables_after
            == seq![ObjectView { slot: slots[0].start as usize, parent: pools.small[0] }]
            + tables
    } else {
        &&& crate::crust::freelist::points(slots_after) == crate::crust::freelist::points(slots)
        &&& pools_after == pools
        &&& tables_after == tables
    }
}

/// What holds of every mapping for which the kernel first missed a page table,
/// wherever the page table's untyped came from. Where no page table was made, the
/// frame is not mapped again and the failed lookup is the outcome. Where one was made,
/// the frame is mapped once more, at the same address, as the last two steps of the
/// record, and the kernel's verdict on that is the outcome.
pub open spec fn retried_once(
    before: Seq<Event>,
    after: Seq<Event>,
    frame: usize,
    vaddr: usize,
    writable: bool,
    tables: Seq<ObjectView>,
    tables_after: Seq<ObjectView>,
    outcome: KError,
) -> bool {
    if tables_after == tables {
        outcome == KError::FailedLookup
    } else {
        &&& tables_after.len() == tables.len() + 1
        &&& tables_after.skip(1) == tables
        &&& after.len() >= before.len() + 4
        &&& after == after.subrange(0, after.len() - 2) + page_map_steps(
            frame,
            vaddr,
            writable,
            last_answer(after),
        )
        &&& outcome == verdict(last_answer(after))
    }
}

/// What such a mapping comes to: the kernel's verdict on the second mapping of the
/// frame; where no page table could be made and mapped, the frame is not mapped again
/// and the first verdict stands, the failed lookup.
pub open spec fn second_map_verdict(before: Seq<Event>, after: Seq<Event>) -> KError {
    let first = after.subrange(0, before.len() as int + 2);
    if table_verdict(first, after) != KError::NoError {
        KError::FailedLookup
    } else {
        verdict(last_answer(after))
    }
}

/// A mapping that found no page table, made one and then went through is what a
/// willing kernel does: the one refusal is made good by the eight steps after it.
pub proof fn lemma_missed_table_made_good(
    before: Seq<Event>,
    after: Seq<Event>,
    frame: usize,
    vaddr: usize,
    writable: bool,
    donor: usize,
    slot: usize,
)
    requires
        mapped_with_table(before, after, frame, vaddr, writable, donor, slot),
        first_map_verdict(before, after) == KError::FailedLookup,
        second_map_verdict(before, after) == KError::NoError,
    ensures
        willing(before, after),
        after.len() == before.len() + 10,
{
    let n = before.len() as int;
    let first = after.subrange(0, n + 2);
    let made = after.subrange(0, n + 6);
    let second = after.subrange(0, n + 8);
    assert(second.subrange(0, n + 6) =~= made);
    assert(second.subrange(0, n + 8) =~= second);
    assert(first.len() == n + 2);
    let retype = retype_steps(
        donor,
        ObjectType::X86PageTableObject.spec_code(),
        0,
        crust::ROOT_SLOT,
        0,
        0,
        slot,
        1,
        last_answer(made),
    );
    assert(made == first + retype);
    let base = (vaddr - vaddr % 0x20_0000) as usize;
    let tmap = table_map_steps(slot, base, last_answer(second));
    assert(second == made + tmap);
    let pmap = page_map_steps(frame, vaddr, writable, last_answer(after));
    assert(after == second + pmap);
    let pmap0 = page_map_steps(frame, vaddr, writable, answer_of(after[n + 1]));
    assert(first == before + pmap0);
    assert forall|j: int| n + 1 < j <= n + 9 implies no_refusal(#[trigger] after[j]) by {
        if j < n + 6 {
            assert(after[j] == made[j]);
            assert(made[j] == retype[j - (n + 2)]);
            assert(made.last() == retype[3]);
        } else if j < n + 8 {
            assert(after[j] == second[j]);
            assert(second[j] == tmap[j - (n + 6)]);
            assert(second.last() == tmap[1]);
        } else {
            assert(after[j] == pmap[j - (n + 8)]);
            assert(after.last() == pmap[1]);
        }
    }
    assert(after[n] == first[n] && first[n] == pmap0[0]);
    assert(after[n + 1] == first[n + 1] && first[n + 1] == pmap0[1]);
    assert(made_good(after, n + 1));
    assert forall|i: int| n <= i < after.len() implies no_refusal(#[trigger] after[i]) || made_good(
        after,
        i,
    ) by {
        if i == n {
            assert(no_refusal(after[n]));
        }
    }
}

impl Page4K {
    pub closed spec fn view(&self) -> ObjectView {
        ObjectView { slot: self.cap@, parent: self.parent@ }
    }

    pub fn from_retyping(cap: Cap, parent: Untyped) -> (r: Page4K)
        ensures
            r@ == (ObjectView { slot: cap@, parent: parent@ }),
    {
        Page4K { cap, parent }
    }

    pub fn peek_index(&self) -> (r: usize)
        ensures
            r == self@.slot,
    {
        self.cap.peek_index()
    }

    /// Has the kernel delete the frame; the untyped it was made from and its slot come
    /// back.
    pub fn free<S: Syscalls>(self, k: &mut Machine<S>) -> (r: (Untyped, CapSlot))
        ensures
            r.0@ == self@.parent,
            r.1@ == self@.slot,
            deleted(old(k)@, self@.slot, final(k)@),
            extends(old(k)@, final(k)@),
    {
        (self.parent, self.cap.delete(k))
    }

    fn map_at_address<S: Syscalls>(&self, vaddr: usize, writable: bool, k: &mut Machine<S>) -> (r:
        KError)
        ensures
            final(k)@
                == old(k)@ + page_map_steps(self@.slot, vaddr, writable, last_answer(final(k)@)),
            r == verdict(last_answer(final(k)@)),
            extends(old(k)@, final(k)@),
    {
        let crights: usize = if writable {
            3
        } else {
            2
        };
        calls::x86_page_map(k, self.cap.peek_index(), crust::ROOT_PAGEDIR, vaddr, crights, 0)
    }

    fn unmap<S: Syscalls>(&self, k: &mut Machine<S>) -> (r: KError)
        ensures
            final(k)@ == old(k)@.push(
                invocation(
                    self@.slot,
                    kernel::TAG_X86_PAGE_UNMAP,
                    0,
                    0,
                    0,
                    0,
                    0,
                    0,
                    last_answer(final(k)@),
                ),
            ),
            r == verdict(last_answer(final(k)@)),
            extends(old(k)@, final(k)@),
    {
        calls::x86_page_unmap(k, self.cap.peek_index())
    }

    /// Maps the frame at `vaddr`, and maps a page table first if the kernel misses one.
    fn map_with_table<S: Syscalls>(
        &self,
        vaddr: usize,
        writable: bool,
        slots: &mut SlotAllocator,
        untyped: &mut UntypedAllocator,
        tables: &mut PageTables,
        k: &mut Machine<S>,
    ) -> (r: KError)
        requires
            old(slots).wf(),
            old(untyped).wf(),
        ensures
            final(slots).wf(),
            final(untyped).wf(),
            final(slots).free().subset_of(old(slots).free()),
            final(tables)@ == old(tables)@ || (final(tables)@.len() == old(tables)@.len() + 1
                && final(tables)@.skip(1) == old(tables)@ && !final(slots).free().contains(
                final(tables)@[0].slot as int,
            ) && final(tables)@[0].slot == old(slots)@[0].start),
            begins_with_map(old(k)@, final(k)@, self@.slot, vaddr, writable),
            first_map_verdict(old(k)@, final(k)@) != KError::FailedLookup ==> final(k)@.len()
                == old(k)@.len()
                + 2 && final(slots)@ == old(slots)@ && final(untyped)@ == old(untyped)@
                    && final(tables)@
                == old(tables)@,
            first_map_verdict(old(k)@, final(k)@) != KError::FailedLookup ==> r
                == first_map_verdict(
                old(k)@,
                final(k)@,
            ),
            extends(old(k)@, final(k)@),
            first_map_verdict(old(k)@, final(k)@) == KError::FailedLookup && old(slots)@.len() > 0
                && old(untyped)@.small.len() > 0 && agreed(
                final(k)@.subrange(0, old(k)@.len() as int + 2),
                final(k)@,
            ) ==> r == KError::NoError && final(tables)@.len() == old(tables)@.len() + 1
                && final(untyped)@.small == old(untyped)@.small.skip(1),
            first_map_verdict(old(k)@, final(k)@) == KError::FailedLookup && old(slots)@.len() > 0
                && old(untyped)@.small.len() > 0 ==> r == second_map_verdict(old(k)@, final(k)@)
                && mapped_with_table(
                old(k)@,
                final(k)@,
                self@.slot,
                vaddr,
                writable,
                old(untyped)@.small[0].slot,
                old(slots)@[0].start as usize,
            ) && table_kept(
                table_verdict(
                    final(k)@.subrange(0, old(k)@.len() as int + 2),
                    final(k)@,
                ) == KError::NoError,
                old(slots)@,
                old(untyped)@,
                old(tables)@,
                final(slots)@,
                final(untyped)@,
                final(tables)@,
            ),
            r != KError::NoError ==> refused_near_end(old(k)@, final(k)@, 4) || (final(untyped)@
                == old(untyped)@ && final(tables)@ == old(tables)@ && (old(slots)@.len() == 0
                && final(slots)@ == old(slots)@ || old(untyped)@.small.len() == 0)),
            old(slots)@.len() == 0 ==> final(slots)@ == old(slots)@ && final(untyped)@
                == old(untyped)@ && final(tables)@ == old(tables)@,
            first_map_verdict(old(k)@, final(k)@) == KError::FailedLookup && table_from_large(
                old(slots)@,
                old(untyped)@,
            ) && agreed(final(k)@.subrange(0, old(k)@.len() as int + 2), final(k)@) ==> r
                == KError::NoError && final(tables)@.len() == old(tables)@.len() + 1,
            first_map_verdict(old(k)@, final(k)@) == KError::FailedLookup ==> retried_once(
                old(k)@,
                final(k)@,
                self@.slot,
                vaddr,
                writable,
                old(tables)@,
                final(tables)@,
                r,
            ),
    {
        let mut err = self.map_at_address(vaddr, writable, k);
        let ghost first = k@;
        if err == KError::FailedLookup {
            let table = map_page_table(page_table_base(vaddr), slots, untyped, tables, k);
            let ghost second = k@;
            if table == KError::NoError {
                err = self.map_at_address(vaddr, writable, k);
                proof {
                    lemma_pair_agreed(second, k@[second.len() as int], k@[second.len() as int + 1], k@);
                    if err != KError::NoError {
                        lemma_not_agreed_refused(second, k@, 2);
                        lemma_refused_extends(old(k)@, second, k@, k@, 2, 0);
                    }
                }
            } else {
                proof {
                    if refused_near_end(first, second, 4) {
                        lemma_refused_extends(old(k)@, first, second, second, 4, 0);
                    } else {
                        lemma_pair_agreed(old(k)@, first[old(k)@.len() as int], first.last(), first);
                        lemma_not_agreed_refused(old(k)@, first, 2);
                        if second.len() == first.len() {
                            assert(second == first);
                        }
                    }
                }
            }
            proof {
                lemma_agreed_parts(first, second, k@);
                if old(slots)@.len() > 0 && old(untyped)@.small.len() > 0 {
                    let n = old(k)@.len() as int;
                    assert(k@.subrange(0, n + 2) =~= first);
                    assert(k@.subrange(0, n + 6) =~= second.subrange(0, n + 6));
                    if second.len() >= n + 8 {
                        assert(k@.subrange(0, n + 8) =~= second.subrange(0, n + 8));
                    }
                    if table == KError::NoError {
                        assert(second.subrange(0, n + 8) =~= second);
                    }
                }
            }
        }
        proof {
            let n = old(k)@.len() as int;
            if err != KError::NoError && err != KError::FailedLookup && k@ == first {
                lemma_pair_agreed(old(k)@, first[n], first.last(), first);
                lemma_not_agreed_refused(old(k)@, first, 2);
            }
            assert(first.len() == n + 2);
            assert(extends(first, k@));
            assert(k@.subrange(0, n + 2) == first);
            assert(k@.subrange(0, n + 2)[n + 1] == k@[n + 1]);
            assert(first[n + 1] == first.last());
        }
        err
    }

    /// Maps the frame at the address `vaddr`. Where the kernel misses a page table for
    /// it, one is made and mapped, and the frame is mapped again, once. On failure the
    /// frame comes back.
    pub fn map_into_addr<S: Syscalls>(
        self,
        vaddr: usize,
        writable: bool,
        slots: &mut SlotAllocator,
        untyped: &mut UntypedAllocator,
        tables: &mut PageTables,
        k: &mut Machine<S>,
    ) -> (r: Result<FixedMappedPage4K, (Page4K, KError)>)
        requires
            old(slots).wf(),
            old(untyped).wf(),
        ensures
            final(slots).wf(),
            final(untyped).wf(),
            final(slots).free().subset_of(old(slots).free()),
            r matches Ok(m) ==> m@ == (FixedView { page: self@, vaddr }),
            r matches Err((page, err)) ==> page == self && err != KError::NoError,
            final(tables)@ == old(tables)@ || (final(tables)@.len() == old(tables)@.len() + 1
                && final(tables)@.skip(1) == old(tables)@ && !final(slots).free().contains(
                final(tables)@[0].slot as int,
            ) && final(tables)@[0].slot == old(slots)@[0].start),
            begins_with_map(old(k)@, final(k)@, self@.slot, vaddr, writable),
            first_map_verdict(old(k)@, final(k)@) != KError::FailedLookup ==> final(k)@.len()
                == old(k)@.len()
                + 2 && final(slots)@ == old(slots)@ && final(untyped)@ == old(untyped)@
                    && final(tables)@
                == old(tables)@,
            first_map_verdict(old(k)@, final(k)@) == KError::NoError ==> r is Ok,
            first_map_verdict(old(k)@, final(k)@) != KError::NoError
                && first_map_verdict(old(k)@, final(k)@)
                != KError::FailedLookup ==> (r matches Err((_, err)) && err == first_map_verdict(
                old(k)@,
                final(k)@,
            )),
            extends(old(k)@, final(k)@),
            first_map_verdict(old(k)@, final(k)@) == KError::FailedLookup && old(slots)@.len() > 0
                && old(untyped)@.small.len() > 0 && agreed(
                final(k)@.subrange(0, old(k)@.len() as int + 2),
                final(k)@,
            ) ==> r is Ok && final(tables)@.len() == old(tables)@.len() + 1
                && final(untyped)@.small == old(untyped)@.small.skip(1),
            first_map_verdict(old(k)@, final(k)@) == KError::FailedLookup && old(slots)@.len() > 0
                && old(untyped)@.small.len() > 0 ==> (r is Ok <==> second_map_verdict(
                old(k)@,
                final(k)@,
            ) == KError::NoError) && (r matches Err((_, err)) ==> err == second_map_verdict(
                old(k)@,
                final(k)@,
            )) && mapped_with_table(
                old(k)@,
                final(k)@,
                self@.slot,
                vaddr,
                writable,
                old(untyped)@.small[0].slot,
                old(slots)@[0].start as usize,
            ) && table_kept(
                table_verdict(
                    final(k)@.subrange(0, old(k)@.len() as int + 2),
                    final(k)@,
                ) == KError::NoError,
                old(slots)@,
                old(untyped)@,
                old(tables)@,
                final(slots)@,
                final(untyped)@,
                final(tables)@,
            ),
            r is Err ==> refused_near_end(old(k)@, final(k)@, 4) || (final(untyped)@
                == old(untyped)@ && final(tables)@ == old(tables)@ && (old(slots)@.len() == 0
                && final(slots)@ == old(slots)@ || old(untyped)@.small.len() == 0)),
            old(slots)@.len() == 0 ==> final(slots)@ == old(slots)@ && final(untyped)@
                == old(untyped)@ && final(tables)@ == old(tables)@,
            first_map_verdict(old(k)@, final(k)@) == KError::FailedLookup && table_from_large(
                old(slots)@,
                old(untyped)@,
            ) && agreed(final(k)@.subrange(0, old(k)@.len() as int + 2), final(k)@) ==> r
                is Ok && final(tables)@.len() == old(tables)@.len() + 1,
            first_map_verdict(old(k)@, final(k)@) == KError::FailedLookup ==> retried_once(
                old(k)@,
                final(k)@,
                self@.slot,
                vaddr,
                writable,
                old(tables)@,
                final(tables)@,
                match r {
                    Ok(_) => KError::NoError,
                    Err((_, err)) => err,
                },
            ),
    {
        let err = self.map_with_table(vaddr, writable, slots, untyped, tables, k);
        if err == KError::NoError {
            Ok(FixedMappedPage4K { page: self, vaddr })
        } else {
            Err((self, err))
        }
    }

    /// Maps the frame at an address taken from `vspace`; a missing page table is made as
    /// in `map_into_addr`. On failure the address goes back to `vspace` and the frame
    /// comes back.
    pub fn map_into_vspace<S: Syscalls>(
        self,
        writable: bool,
        vspace: &mut RegionAllocator,
        slots: &mut SlotAllocator,
        untyped: &mut UntypedAllocator,
        tables: &mut PageTables,
        k: &mut Machine<S>,
    ) -> (r: Result<RegionMappedPage4K, (Page4K, KError)>)
        requires
            old(vspace).wf(),
            old(slots).wf(),
            old(untyped).wf(),
        ensures
            final(vspace).wf(),
            final(slots).wf(),
            final(untyped).wf(),
            final(slots).free().subset_of(old(slots).free()),
            r matches Ok(m) ==> m.wf() && m@.page == self@
                && first_fit(old(vspace)@, 0x1000) < old(vspace)@.len() && m@.region
                == old(vspace)@[first_fit(old(vspace)@, 0x1000)].front(0x1000)
                && final(vspace)@ == take_n(old(vspace)@, 0x1000) && holds_none_of(
                final(vspace)@,
                m@.region,
            ),
            r matches Err((page, err)) ==> page == self && err != KError::NoError
                && final(vspace).free() == old(vspace).free(),
            first_fit(old(vspace)@, 0x1000) >= old(vspace)@.len() ==> (r matches Err((_, err))
                && err == KError::NotEnoughMemory),
            final(tables)@ == old(tables)@ || (final(tables)@.len() == old(tables)@.len() + 1
                && final(tables)@.skip(1) == old(tables)@ && !final(slots).free().contains(
                final(tables)@[0].slot as int,
            ) && final(tables)@[0].slot == old(slots)@[0].start),
            first_fit(old(vspace)@, 0x1000) >= old(vspace)@.len() ==> final(k)@ == old(k)@,
            first_fit(old(vspace)@, 0x1000) < old(vspace)@.len() ==> {
                let vaddr = old(vspace)@[first_fit(old(vspace)@, 0x1000)].start as usize;
                let first = first_map_verdict(old(k)@, final(k)@);
                &&& begins_with_map(old(k)@, final(k)@, self@.slot, vaddr, writable)
                &&& first != KError::FailedLookup ==> final(k)@.len() == old(k)@.len() + 2
                    && final(slots)@
                    == old(slots)@ && final(untyped)@ == old(untyped)@ && final(tables)@
                        == old(tables)@
                &&& first == KError::NoError ==> r is Ok
                &&& first != KError::NoError && first != KError::FailedLookup
                    ==> (r matches Err((_, err))
                    && err == first)
            },
            extends(old(k)@, final(k)@),
            first_fit(old(vspace)@, 0x1000) < old(vspace)@.len()
                && first_map_verdict(old(k)@, final(k)@)
                == KError::FailedLookup && old(slots)@.len() > 0 && old(untyped)@.small.len() > 0
                && agreed(final(k)@.subrange(0, old(k)@.len() as int + 2), final(k)@) ==> r is Ok
                && final(tables)@.len() == old(tables)@.len() + 1,
            first_fit(old(vspace)@, 0x1000) < old(vspace)@.len()
                && first_map_verdict(old(k)@, final(k)@)
                == KError::FailedLookup && old(slots)@.len() > 0
                    && old(untyped)@.small.len() > 0 ==> (
            r is Ok <==> second_map_verdict(old(k)@, final(k)@) == KError::NoError)
                && (r matches Err(
                (_, err),
            ) ==> err == second_map_verdict(old(k)@, final(k)@)) && mapped_with_table(
                old(k)@,
                final(k)@,
                self@.slot,
                old(vspace)@[first_fit(old(vspace)@, 0x1000)].start as usize,
                writable,
                old(untyped)@.small[0].slot,
                old(slots)@[0].start as usize,
            ) && table_kept(
                table_verdict(
                    final(k)@.subrange(0, old(k)@.len() as int + 2),
                    final(k)@,
                ) == KError::NoError,
                old(slots)@,
                old(untyped)@,
                old(tables)@,
                final(slots)@,
                final(untyped)@,
                final(tables)@,
            ),
            r is Err && first_fit(old(vspace)@, 0x1000) < old(vspace)@.len()
                ==> refused_near_end(old(k)@, final(k)@, 4) || (final(untyped)@
                == old(untyped)@ && final(tables)@ == old(tables)@ && (old(slots)@.len() == 0
                && final(slots)@ == old(slots)@ || old(untyped)@.small.len() == 0)),
            first_fit(old(vspace)@, 0x1000) < old(vspace)@.len() && first_map_verdict(
                old(k)@,
                final(k)@,
            ) == KError::FailedLookup && table_from_large(old(slots)@, old(untyped)@) && agreed(
                final(k)@.subrange(0, old(k)@.len() as int + 2),
                final(k)@,
            ) ==> r is Ok && final(tables)@.len() == old(tables)@.len() + 1,
            first_fit(old(vspace)@, 0x1000) < old(vspace)@.len() && first_map_verdict(
                old(k)@,
                final(k)@,
            ) == KError::FailedLookup ==> retried_once(
                old(k)@,
                final(k)@,
                self@.slot,
                old(vspace)@[first_fit(old(vspace)@, 0x1000)].start as usize,
                writable,
                old(tables)@,
                final(tables)@,
                match r {
                    Ok(_) => KError::NoError,
                    Err((_, err)) => err,
                },
            ),
    {
        match allocate_vregion(vspace, PAGE_4K_SIZE) {
            Ok(vregion) => {
                let vaddr = vregion.to_4k_address();
                let err = self.map_with_table(vaddr, writable, slots, untyped, tables, k);
                if err == KError::NoError {
                    Ok(RegionMappedPage4K { page: self, vregion })
                } else {
                    free_vregion(vspace, vregion);
                    assert(vspace.free() =~= old(vspace).free());
                    Err((self, err))
                }
            },
            Err(err) => Err((self, err)),
        }
    }
}

/// What a frame mapped at a chosen address is: the frame and the address.
pub struct FixedView {
    pub page: ObjectView,
    pub vaddr: usize,
}

/// A frame that is mapped at an address of the caller's choice.
pub struct FixedMappedPage4K {
    page: Page4K,
    vaddr: usize,
}

impl FixedMappedPage4K {
    pub closed spec fn view(&self) -> FixedView {
        FixedView { page: self.page@, vaddr: self.vaddr }
    }

    pub fn get_addr(&self) -> (r: usize)
        ensures
            r == self@.vaddr,
    {
        self.vaddr
    }

    /// The address at which the frame's bytes begin.
    pub fn get_ptr(&mut self) -> (r: usize)
        ensures
            r == old(self)@.vaddr,
            *final(self) == *old(self),
    {
        self.get_addr()
    }

    /// Has the kernel unmap the frame, which it must not refuse; if it does, the
    /// machine's `fault` is told. The frame comes back.
    pub fn unmap<S: Syscalls>(self, k: &mut Machine<S>) -> (r: Page4K)
        ensures
            r@ == self@.page,
            unmapped(old(k)@, self@.page.slot, final(k)@),
            extends(old(k)@, final(k)@),
    {
        let err = self.page.unmap(k);
        if err != KError::NoError {
            k.fault(err);
        }
        self.page
    }
}

/// What a frame mapped at an allocated address is: the frame and the region of address
/// space that it takes.
pub struct RegionView {
    pub page: ObjectView,
    pub region: Span,
}

/// A frame that is mapped at an address taken from the region allocator.
pub struct RegionMappedPage4K {
    page: Page4K,
    vregion: VRegion,
}

/// A frame that is mapped where the region allocator found room.
pub type MappedPage4K = RegionMappedPage4K;

impl RegionMappedPage4K {
    pub closed spec fn view(&self) -> RegionView {
        RegionView { page: self.page@, region: self.vregion@ }
    }

    /// The region is one page.
    pub closed spec fn wf(&self) -> bool {
        self.vregion.wf() && self.vregion@.len() == 0x1000
    }

    pub proof fn lemma_wf(&self)
        requires
            self.wf(),
        ensures
            self@.region.wf(),
            self@.region.len() == 0x1000,
            self@.region.start % 0x1000 == 0,
    {
    }

    pub fn get_addr(&self) -> (r: usize)
        requires
            self.wf(),
        ensures
            r == self@.region.start,
    {
        self.vregion.to_4k_address()
    }

    /// The address at which the frame's bytes begin.
    pub fn get_ptr(&mut self) -> (r: usize)
        requires
            old(self).wf(),
        ensures
            r == old(self)@.region.start,
            *final(self) == *old(self),
    {
        self.get_addr()
    }

    /// Has the kernel unmap the frame, which it must not refuse; if it does, the
    /// machine's `fault` is told. The address goes back to `vspace`, the frame comes back.
    pub fn unmap<S: Syscalls>(self, vspace: &mut RegionAllocator, k: &mut Machine<S>) -> (r: Page4K)
        requires
            self.wf(),
            old(vspace).wf(),
            holds_none_of(old(vspace)@, self@.region),
        ensures
            final(vspace).wf(),
            r@ == self@.page,
            final(vspace)@ == merge(old(vspace)@, self@.region),
            final(vspace).free() == old(vspace).free().union(self@.region.points()),
            unmapped(old(k)@, self@.page.slot, final(k)@),
            extends(old(k)@, final(k)@),
    {
        let err = self.page.unmap(k);
        if err != KError::NoError {
            k.fault(err);
        }
        free_vregion(vspace, self.vregion);
        self.page
    }
}

/// A page table that is not mapped.
#[derive(Debug)]
pub struct PageTable {
    cap: Cap,
    parent: Untyped,
}

impl PageTable {
    pub closed spec fn view(&self) -> ObjectView {
        ObjectView { slot: self.cap@, parent: self.parent@ }
    }

    pub fn from_retyping(cap: Cap, parent: Untyped) -> (r: PageTable)
        ensures
            r@ == (ObjectView { slot: cap@, parent: parent@ }),
    {
        PageTable { cap, parent }
    }

    /// Has the kernel delete the page table; the untyped it was made from and its slot
    /// come back.
    pub fn free<S: Syscalls>(self, k: &mut Machine<S>) -> (r: (Untyped, CapSlot))
        ensures
            r.0@ == self@.parent,
            r.1@ == self@.slot,
            deleted(old(k)@, self@.slot, final(k)@),
            extends(old(k)@, final(k)@),
    {
        (self.parent, self.cap.delete(k))
    }

    fn map_at_address<S: Syscalls>(&self, vaddr: usize, k: &mut Machine<S>) -> (r: KError)
        ensures
            final(k)@ == old(k)@ + table_map_steps(self@.slot, vaddr, last_answer(final(k)@)),
            r == verdict(last_answer(final(k)@)),
            extends(old(k)@, final(k)@),
    {
        calls::x86_page_table_map(k, self.cap.peek_index(), crust::ROOT_PAGEDIR, vaddr, 0)
    }

    /// Maps the page table at `vaddr`. On the kernel's refusal it comes back.
    pub fn map_into_addr<S: Syscalls>(self, vaddr: usize, k: &mut Machine<S>) -> (r: Result<
        MappedPageTable,
        (PageTable, KError),
    >)
        ensures
            r matches Ok(m) ==> m@ == self@,
            r matches Err((table, err)) ==> table == self && err != KError::NoError && err
                == verdict(last_answer(final(k)@)),
            r is Ok <==> verdict(last_answer(final(k)@)) == KError::NoError,
            final(k)@ == old(k)@ + table_map_steps(self@.slot, vaddr, last_answer(final(k)@)),
            extends(old(k)@, final(k)@),
    {
        let err = self.map_at_address(vaddr, k);
        if err == KError::NoError {
            Ok(MappedPageTable { page: self })
        } else {
            Err((self, err))
        }
    }
}

/// A page table that is mapped.
pub struct MappedPageTable {
    page: PageTable,
}

impl MappedPageTable {
    pub closed spec fn view(&self) -> ObjectView {
        self.page@
    }
}

} // verus!
