//! The allocator of capability slots: a free list of ranges of the root CNode.
use vstd::prelude::*;
use crate::crust::freelist::{
    apart_from_all,
    first_fit,
    holds_none_of,
    lemma_first_fit_is,
    lemma_first_fit_none,
    lemma_holds_none_is_apart,
    lemma_merge,
    lemma_take,
    lemma_take_one_is_take_n,
    list_wf,
    merge,
    points,
    take_n,
    take_one,
    unit,
};
use crate::intervals::Span;
use crate::kobject::{CapRange, CapSlot, CapSlotSet};
use crate::mantle::kernel::KError;
use crate::memory::linkedlist::{is_first_match, LinkedList};

verus! {

/// The free slots of the root CNode. The view is the list of free ranges in the order in
/// which they are searched.
pub struct SlotAllocator {
    available: LinkedList<CapRange>,
}

/// The intervals that a list of ranges covers.
pub open spec fn spans(list: Seq<CapRange>) -> Seq<Span> {
    list.map_values(|r: CapRange| r@)
}

impl SlotAllocator {
    pub closed spec fn view(&self) -> Seq<Span> {
        spans(self.available@)
    }

    /// The free ranges hold a slot each and do not overlap.
    pub open spec fn wf(&self) -> bool {
        list_wf(self@)
    }

    /// The indices of the free slots.
    pub open spec fn free(&self) -> Set<int> {
        points(self@)
    }

    /// An allocator without any free slot.
    pub fn new() -> (r: SlotAllocator)
        ensures
            r.wf(),
            r@ == Seq::<Span>::empty(),
    {
        let r = SlotAllocator { available: LinkedList::empty() };
        assert(r@ =~= Seq::<Span>::empty());
        r
    }

    /// How many free ranges the list has.
    pub fn range_count(&self) -> (n: usize)
        requires
            self@.len() <= usize::MAX,
        ensures
            n == self@.len(),
    {
        self.available.len()
    }

    /// The `i`th free range as its two bounds.
    pub fn range_at(&self, i: usize) -> (r: Option<(usize, usize)>)
        requires
            self.wf(),
        ensures
            i >= self@.len() ==> r is None,
            i < self@.len() ==> r
                == Some((self@[i as int].start as usize, self@[i as int].end as usize)),
    {
        match self.available.get(i) {
            Some(range) => {
                assert(self@[i as int] == range@);
                let start = range.start();
                let len = range.len();
                Some((start, start + len))
            },
            None => None,
        }
    }
}

/// Takes one slot: the first of the first free range.
pub fn allocate_cap_slot(a: &mut SlotAllocator) -> (r: Result<CapSlot, KError>)
    requires
        old(a).wf(),
    ensures
        final(a).wf(),
        old(a)@.len() == 0 ==> r == Err::<CapSlot, KError>(KError::NotEnoughMemory) && final(a)@
            == old(a)@,
        old(a)@.len() > 0 ==> r is Ok && r.unwrap()@ == old(a)@[0].start && final(a)@ == take_one(
            old(a)@,
        ),
        r is Ok ==> old(a).free().contains(r.unwrap()@ as int) && final(a).free() == old(
            a,
        ).free().remove(r.unwrap()@ as int) && r.unwrap()@ < usize::MAX,
{
    let ghost before = a.available@;
    let (cslot, is_now_empty): (usize, bool) = match a.available.headmut() {
        None => {
            return Err(KError::NotEnoughMemory);
        },
        Some(head) => {
            assert(*head == before[0]);
            assert(spans(before)[0] == head@);
            let c = head.chop_1().unwrap();
            (c, head.is_empty())
        },
    };
    assert(a.available@.len() == before.len());
    assert(a.available@[0]@ == spans(before)[0].without_front(1));
    assert(a@ =~= spans(before).update(0, spans(before)[0].without_front(1)));
    if is_now_empty {
        let _ = a.available.popmut();
        assert(a@ =~= spans(before).remove(0));
    }
    proof {
        let model = spans(before);
        lemma_take_one_is_take_n(model);
        lemma_take(model, 1);
        assert(model[0].front(1).points() =~= set![cslot as int]);
        assert(points(model).difference(set![cslot as int]) =~= points(model).remove(cslot as int));
        assert(model[0].front(1).contains(cslot as int));
    }
    Ok(CapSlot::from_index(cslot))
}

/// Takes `n` contiguous slots from the front of the first free range that has as many.
pub fn allocate_cap_slots(a: &mut SlotAllocator, n: usize) -> (r: Result<CapSlotSet, KError>)
    requires
        old(a).wf(),
        n > 0,
    ensures
        final(a).wf(),
        first_fit(old(a)@, n as int) >= old(a)@.len() ==> r == Err::<CapSlotSet, KError>(
            KError::NotEnoughMemory,
        ) && final(a)@ == old(a)@,
        first_fit(old(a)@, n as int) < old(a)@.len() ==> r is Ok && r.unwrap().wf()
            && r.unwrap()@.is_full() && r.unwrap()@.start == old(a)@[first_fit(
            old(a)@,
            n as int,
        )].start && r.unwrap()@.capacity() == n && final(a)@ == take_n(old(a)@, n as int),
        r is Ok ==> window_span(r.unwrap()@).points().subset_of(old(a).free()) && final(a).free()
            == old(a).free().difference(window_span(r.unwrap()@).points()),
{
    let ghost before = a.available@;
    let ghost model = a@;
    let fits = |b: &CapRange| -> (ok: bool)
        requires
            b.wf(),
        ensures
            ok == (b@.len() >= n),
        { b.len() >= n };
    assert forall|j: int| 0 <= j < before.len() implies fits.requires((&#[trigger] before[j],)) by {
        assert(model[j] == before[j]@);
    }
    let (crange, is_now_empty): (CapRange, bool) = match a.available.find_mut(fits) {
        None => {
            proof {
                assert forall|j: int| 0 <= j < model.len() implies (#[trigger] model[j]).len()
                    < n by {
                    assert(fits.ensures((&before[j],), false));
                }
                lemma_first_fit_none(model, n as int);
            }
            return Err(KError::NotEnoughMemory);
        },
        Some(found) => {
            proof {
                let i = choose|i: int| #[trigger]
                    is_first_match(before, fits, i) && *found == before[i];
                assert forall|j: int| 0 <= j < i implies (#[trigger] model[j]).len() < n by {
                    assert(fits.ensures((&before[j],), false));
                }
                assert(model[i] == before[i]@);
                lemma_first_fit_is(model, n as int, i);
            }
            let c = found.chop_n(n).unwrap();
            (c, found.is_empty())
        },
    };
    let ghost i = first_fit(model, n as int);
    assert(a.available@.len() == before.len());
    assert(a@ =~= model.update(i, model[i].without_front(n as int)));
    if is_now_empty {
        let empty = |b: &CapRange| -> (ok: bool)
            requires
                b.wf(),
            ensures
                ok == b@.is_empty(),
            { b.is_empty() };
        let ghost mid = a.available@;
        let ghost mid_model = a@;
        assert forall|j: int| 0 <= j < mid.len() implies empty.requires((&#[trigger] mid[j],)) by {
            assert(mid_model[j] == mid[j]@);
        }
        let removed = a.available.remove_mut(empty);
        proof {
            assert(mid_model[i] == mid[i]@);
            if removed is None {
                assert(empty.ensures((&mid[i],), false));
            }
            let w = choose|w: int| #[trigger]
                is_first_match(mid, empty, w) && a.available@ == mid.remove(w);
            assert(mid_model[w] == mid[w]@);
            assert(w == i);
            assert(a@ =~= model.remove(i));
        }
    }
    proof {
        lemma_take(model, n as int);
    }
    Ok(crange.to_set_asserted_full())
}

/// Joins `r` into the list `list` as `merge` describes.
fn merge_into(list: &mut LinkedList<CapRange>, r: CapRange)
    requires
        list_wf(spans(old(list)@)),
        r.wf(),
        !r@.is_empty(),
        apart_from_all(spans(old(list)@), r@),
    ensures
        spans(final(list)@) == merge(spans(old(list)@), r@),
    decreases old(list)@.len(),
{
    let ghost before = list@;
    let ghost model = spans(before);
    match list.nextmut() {
        None => {
            let _ = list.pushmut(r);
            assert(spans(list@) =~= seq![r@]);
        },
        Some((head, ncur)) => {
            assert(model[0] == head@);
            let ghost rest = ncur@;
            assert(spans(rest) =~= model.skip(1));
            match head.join_mut(r) {
                Some(back) => {
                    proof {
                        crate::crust::freelist::lemma_skip_wf(model, r@);
                    }
                    merge_into(ncur, back);
                    assert(spans(list@) =~= seq![model[0]] + merge(model.skip(1), r@));
                },
                None => {
                    let should_do_postjoin = match ncur.head() {
                        Some(adjacent) => {
                            assert(model[1] == adjacent@);
                            assert(model[0].apart(model[1]));
                            assert(model[1].apart(r@));
                            head.could_join(adjacent)
                        },
                        None => false,
                    };
                    if should_do_postjoin {
                        let next = ncur.popmut().unwrap();
                        assert(next@ == model[1]);
                        let _ = head.join_mut(next);
                        assert(spans(list@) =~= seq![model[0].join(r@).join(model[1])] + model.skip(
                            2,
                        ));
                    } else {
                        assert(spans(list@) =~= seq![model[0].join(r@)] + model.skip(1));
                    }
                },
            }
        },
    }
}

/// The interval that a set of slots is over.
pub open spec fn window_span(w: crate::kobject::SlotWindow) -> Span {
    Span { start: w.start, end: w.end }
}

/// Gives the range `r` of slots, none of them free, to the allocator.
pub fn merge_caprange(a: &mut SlotAllocator, r: CapRange)
    requires
        old(a).wf(),
        r.wf(),
        !r@.is_empty(),
        holds_none_of(old(a)@, r@),
    ensures
        final(a).wf(),
        final(a)@ == merge(old(a)@, r@),
        final(a).free() == old(a).free().union(r@.points()),
{
    proof {
        lemma_holds_none_is_apart(a@, r@);
        lemma_merge(a@, r@);
    }
    merge_into(&mut a.available, r);
}

/// Gives one slot back.
pub fn free_cap_slot(a: &mut SlotAllocator, cs: CapSlot)
    requires
        old(a).wf(),
        cs@ < usize::MAX,
        !old(a).free().contains(cs@ as int),
    ensures
        final(a).wf(),
        final(a)@ == merge(old(a)@, unit(cs@ as int)),
        final(a).free() == old(a).free().insert(cs@ as int),
{
    proof {
        assert(unit(cs@ as int).points() =~= set![cs@ as int]);
        assert(old(a).free().union(set![cs@ as int]) =~= old(a).free().insert(cs@ as int));
    }
    merge_caprange(a, CapRange::single(cs.deconstruct()));
}

/// Gives back a set of slots, all of which must be in it.
pub fn free_cap_slots(a: &mut SlotAllocator, cs: CapSlotSet)
    requires
        old(a).wf(),
        cs.wf(),
        cs@.is_full(),
        cs@.capacity() > 0,
        holds_none_of(old(a)@, window_span(cs@)),
    ensures
        final(a).wf(),
        final(a)@ == merge(old(a)@, window_span(cs@)),
        final(a).free() == old(a).free().union(window_span(cs@).points()),
{
    merge_caprange(a, cs.deconstruct());
}

/// Gives the allocator the range of slots that the kernel left empty.
pub fn init_cslots(a: &mut SlotAllocator, cs: CapRange)
    requires
        old(a).wf(),
        cs.wf(),
        !cs@.is_empty(),
        holds_none_of(old(a)@, cs@),
    ensures
        final(a).wf(),
        final(a)@ == merge(old(a)@, cs@),
        final(a).free() == old(a).free().union(cs@.points()),
{
    merge_caprange(a, cs);
}

} // verus!
