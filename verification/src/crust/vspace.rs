//! The allocator of virtual address space: a free list of page-aligned regions.
use vstd::prelude::*;
use crate::crust::freelist::{
    apart_from_all,
    first_fit,
    holds_none_of,
    lemma_first_fit_is,
    lemma_first_fit_none,
    lemma_holds_none_is_apart,
    lemma_merge,
    lemma_take,
    list_wf,
    merge,
    points,
    take_n,
};
use crate::intervals::Span;
use crate::mantle::kernel::{KError, PAGE_4K_SIZE};
use crate::memory::linkedlist::{is_first_match, LinkedList};

verus! {

/// Both ends of the interval lie on a page boundary.
pub open spec fn page_aligned(s: Span) -> bool {
    s.start % 0x1000 == 0 && s.end % 0x1000 == 0
}

/// Every interval of the list is page-aligned.
pub open spec fn all_aligned(s: Seq<Span>) -> bool {
    forall|i: int| 0 <= i < s.len() ==> page_aligned(#[trigger] s[i])
}

/// A region of virtual addresses from `start` up to, not including, `end`, both on a
/// page boundary. Its view is the interval it covers.
pub struct VRegion {
    start: usize,
    end: usize,
}

impl VRegion {
    pub closed spec fn spec_start(&self) -> usize {
        self.start
    }

    pub closed spec fn spec_end(&self) -> usize {
        self.end
    }

    pub open spec fn view(&self) -> Span {
        Span { start: self.spec_start() as int, end: self.spec_end() as int }
    }

    /// The region is page-aligned and does not end before it starts.
    pub open spec fn wf(&self) -> bool {
        self@.wf() && page_aligned(self@)
    }

    /// The region from `start` to `end`.
    pub fn new(start: usize, end: usize) -> (r: VRegion)
        requires
            start % 0x1000 == 0,
            end % 0x1000 == 0,
            end > start,
        ensures
            r.wf(),
            r@ == (Span { start: start as int, end: end as int }),
    {
        VRegion { start, end }
    }

    #[verifier::when_used_as_spec(spec_start)]
    pub fn start(&self) -> (r: usize)
        ensures
            r == self@.start,
    {
        self.start
    }

    pub fn len(&self) -> (r: usize)
        requires
            self.wf(),
        ensures
            r == self@.len(),
    {
        self.end - self.start
    }

    pub fn is_empty(&self) -> (r: bool)
        requires
            self.wf(),
        ensures
            r == self@.is_empty(),
    {
        self.len() == 0
    }

    /// Takes the first `length` bytes off the region.
    pub fn chop_len(&mut self, length: usize) -> (r: VRegion)
        requires
            old(self).wf(),
            length % 0x1000 == 0,
            0 < length <= old(self)@.len(),
        ensures
            final(self).wf(),
            r.wf(),
            r@ == old(self)@.front(length as int),
            final(self)@ == old(self)@.without_front(length as int),
    {
        let out = VRegion::new(self.start, self.start + length);
        self.start += length;
        out
    }

    /// Reports the overlap of two regions. Regions that the allocator holds never
    /// overlap.
    pub fn intersection(&self, other: &VRegion) -> (r: Option<VRegion>)
        ensures
            r is None <==> self@.apart(other@),
            r matches Some(x) ==> Some(x@) == self@.overlap(other@),
    {
        let (lower, higher) = if self.start < other.start {
            (self, other)
        } else {
            (other, self)
        };
        if lower.end > higher.start {
            Some(VRegion { start: higher.start, end: lower.end })
        } else {
            None
        }
    }

    /// Takes `other` into this region if the two touch; hands it back if they do not.
    pub fn join(&mut self, other: VRegion) -> (r: Option<VRegion>)
        requires
            old(self)@.apart(other@),
        ensures
            old(self)@.touches(other@) ==> r is None && final(self)@ == old(self)@.join(other@),
            !old(self)@.touches(other@) ==> r == Some(other) && final(self)@ == old(self)@,
    {
        if self.end == other.start {
            self.end = other.end;
            None
        } else if self.start == other.end {
            self.start = other.start;
            None
        } else {
            Some(other)
        }
    }

    pub fn could_join(&self, other: &VRegion) -> (r: bool)
        requires
            self@.apart(other@),
        ensures
            r == self@.touches(other@),
    {
        self.end == other.start || self.start == other.end
    }

    /// The address of a region that is exactly one page.
    pub fn to_4k_address(&self) -> (r: usize)
        requires
            self.wf(),
            self@.len() == 0x1000,
        ensures
            r == self@.start,
            r % 0x1000 == 0,
    {
        self.start
    }
}

/// The kernel's base lies on a page boundary.
pub proof fn lemma_kernel_base_aligned()
    ensures
        (usize::MAX - 0x7fff_ffff) % 0x1000 == 0,
{
    assert(usize::MAX == 0xffff_ffff || usize::MAX == 0xffff_ffff_ffff_ffff) by {
        assert(usize::BITS == 32 || usize::BITS == 64);
    }
}

/// Where the kernel's part of the address space begins: the last two gigabytes. On
/// x86-64 this is `0xffff_ffff_8000_0000`.
pub fn kernel_base_vaddr() -> (r: usize)
    ensures
        r == usize::MAX - 0x7fff_ffff,
{
    usize::MAX - 0x7fff_ffff
}

/// The free regions of the address space. The view is the list of free regions in the
/// order in which they are searched.
pub struct RegionAllocator {
    available: LinkedList<VRegion>,
}

/// The intervals that a list of regions covers.
pub open spec fn spans(list: Seq<VRegion>) -> Seq<Span> {
    list.map_values(|r: VRegion| r@)
}

impl RegionAllocator {
    pub closed spec fn view(&self) -> Seq<Span> {
        spans(self.available@)
    }

    /// The free regions are page-aligned, hold a page each and do not overlap.
    pub open spec fn wf(&self) -> bool {
        list_wf(self@) && all_aligned(self@)
    }

    /// The free addresses.
    pub open spec fn free(&self) -> Set<int> {
        points(self@)
    }

    /// An allocator without any free region.
    pub fn new() -> (r: RegionAllocator)
        ensures
            r.wf(),
            r@ == Seq::<Span>::empty(),
    {
        let r = RegionAllocator { available: LinkedList::empty() };
        assert(r@ =~= Seq::<Span>::empty());
        r
    }

    /// The `i`th free region as its two bounds.
    pub fn region_at(&self, i: usize) -> (r: Option<(usize, usize)>)
        requires
            self.wf(),
        ensures
            i >= self@.len() ==> r is None,
            i < self@.len() ==> r == Some(
                (self@[i as int].start as usize, self@[i as int].end as usize),
            ),
    {
        match self.available.get(i) {
            Some(region) => {
                assert(self@[i as int] == region@);
                let start = region.start();
                let len = region.len();
                Some((start, start + len))
            },
            None => None,
        }
    }
}

/// Makes the address space above the loaded image, after a gap of eight pages, free up
/// to the kernel's base.
pub fn init_vspace(va: &mut RegionAllocator, executable_start: usize, image_len: usize)
    requires
        old(va).wf(),
        (executable_start + image_len) % 0x1000 == 0,
        executable_start + image_len + 0x8000 < usize::MAX - 0x7fff_ffff,
        holds_none_of(
            old(va)@,
            Span {
                start: executable_start + image_len + 0x8000,
                end: usize::MAX - 0x7fff_ffff,
            },
        ),
    ensures
        final(va).wf(),
        final(va)@ == seq![
            Span { start: executable_start + image_len + 0x8000, end: usize::MAX - 0x7fff_ffff },
        ] + old(va)@,
{
    proof {
        lemma_kernel_base_aligned();
    }
    let region = VRegion::new(executable_start + image_len + PAGE_4K_SIZE * 8, kernel_base_vaddr());
    proof {
        lemma_holds_none_is_apart(va@, region@);
    }
    let _ = va.available.pushmut(region);
    proof {
        let m = seq![region@] + old(va)@;
        assert(va@ =~= m);
        assert forall|i: int, j: int| 0 <= i < j < m.len() implies (#[trigger] m[i]).apart(
            #[trigger] m[j],
        ) by {
            assert(m[j] == old(va)@[j - 1]);
            if i > 0 {
                assert(m[i] == old(va)@[i - 1]);
            }
        }
        assert forall|i: int| 0 <= i < m.len() implies (#[trigger] m[i]).wf() && !m[i].is_empty()
            && page_aligned(m[i]) by {
            if i > 0 {
                assert(m[i] == old(va)@[i - 1]);
            }
        }
    }
}

/// Takes `length` bytes from the front of the first free region that has as many.
pub fn allocate_vregion(va: &mut RegionAllocator, length: usize) -> (r: Result<VRegion, KError>)
    requires
        old(va).wf(),
        length % 0x1000 == 0,
        length > 0,
    ensures
        final(va).wf(),
        first_fit(old(va)@, length as int) >= old(va)@.len() ==> r == Err::<VRegion, KError>(
            KError::NotEnoughMemory,
        ) && final(va)@ == old(va)@,
        first_fit(old(va)@, length as int) < old(va)@.len() ==> r is Ok && r.unwrap().wf()
            && r.unwrap()@ == old(va)@[first_fit(old(va)@, length as int)].front(length as int)
            && final(va)@ == take_n(old(va)@, length as int),
        r is Ok ==> r.unwrap()@.len() == length && r.unwrap()@.points().subset_of(old(va).free())
            && final(va).free() == old(va).free().difference(r.unwrap()@.points()),
{
    let ghost before = va.available@;
    let ghost model = va@;
    let fits = |b: &VRegion| -> (ok: bool)
        requires
            b.wf(),
        ensures
            ok == (b@.len() >= length),
        { b.len() >= length };
    assert forall|j: int| 0 <= j < before.len() implies fits.requires((&#[trigger] before[j],)) by {
        assert(model[j] == before[j]@);
    }
    let (vregion, is_now_empty): (VRegion, bool) = match va.available.find_mut(fits) {
        None => {
            proof {
                assert forall|j: int| 0 <= j < model.len() implies (#[trigger] model[j]).len()
                    < length by {
                    assert(fits.ensures((&before[j],), false));
                }
                lemma_first_fit_none(model, length as int);
            }
            return Err(KError::NotEnoughMemory);
        },
        Some(found) => {
            proof {
                let i = choose|i: int| #[trigger]
                    is_first_match(before, fits, i) && *found == before[i];
                assert forall|j: int| 0 <= j < i implies (#[trigger] model[j]).len() < length by {
                    assert(fits.ensures((&before[j],), false));
                }
                assert(model[i] == before[i]@);
                lemma_first_fit_is(model, length as int, i);
            }
            let c = found.chop_len(length);
            (c, found.is_empty())
        },
    };
    let ghost i = first_fit(model, length as int);
    assert(va.available@.len() == before.len());
    assert(va@ =~= model.update(i, model[i].without_front(length as int)));
    if is_now_empty {
        let empty = |b: &VRegion| -> (ok: bool)
            requires
                b.wf(),
            ensures
                ok == b@.is_empty(),
            { b.is_empty() };
        let ghost mid = va.available@;
        let ghost mid_model = va@;
        assert forall|j: int| 0 <= j < mid.len() implies empty.requires((&#[trigger] mid[j],)) by {
            assert(mid_model[j] == mid[j]@);
        }
        let removed = va.available.remove_mut(empty);
        proof {
            assert(mid_model[i] == mid[i]@);
            if removed is None {
                assert(empty.ensures((&mid[i],), false));
            }
            let w = choose|w: int| #[trigger]
                is_first_match(mid, empty, w) && va.available@ == mid.remove(w);
            assert(mid_model[w] == mid[w]@);
            assert(w == i);
            assert(va@ =~= model.remove(i));
        }
    }
    proof {
        lemma_take(model, length as int);
        let t = take_n(model, length as int);
        assert forall|j: int| 0 <= j < t.len() implies page_aligned(#[trigger] t[j]) by {
            if model[i].len() == length {
                let j0 = if j < i {
                    j
                } else {
                    j + 1
                };
                assert(t[j] == model[j0]);
            } else {
                assert(page_aligned(model[j]));
            }
        }
    }
    Ok(vregion)
}

/// Joins `r` into the list `list` as `merge` describes.
fn merge_into(list: &mut LinkedList<VRegion>, r: VRegion)
    requires
        list_wf(spans(old(list)@)),
        r@.wf(),
        !r@.is_empty(),
        apart_from_all(spans(old(list)@), r@),
    ensures
        spans(final(list)@) == merge(spans(old(list)@), r@),
    decreases old(list)@.len(),
{
    let ghost before = list@;
    let ghost model = spans(before);
    match list.nextmut() {
        None => {
            let _ = list.pushmut(r);
            assert(spans(list@) =~= seq![r@]);
        },
        Some((head, ncur)) => {
            assert(model[0] == head@);
            let ghost rest = ncur@;
            assert(spans(rest) =~= model.skip(1));
            match head.join(r) {
                Some(back) => {
                    proof {
                        crate::crust::freelist::lemma_skip_wf(model, r@);
                    }
                    merge_into(ncur, back);
                    assert(spans(list@) =~= seq![model[0]] + merge(model.skip(1), r@));
                },
                None => {
                    let should_do_postjoin = match ncur.head() {
                        Some(adjacent) => {
                            assert(model[1] == adjacent@);
                            assert(model[0].apart(model[1]));
                            assert(model[1].apart(r@));
                            head.could_join(adjacent)
                        },
                        None => false,
                    };
                    if should_do_postjoin {
                        let next = ncur.popmut().unwrap();
                        assert(next@ == model[1]);
                        let _ = head.join(next);
                        assert(spans(list@) =~= seq![model[0].join(r@).join(model[1])] + model.skip(
                            2,
                        ));
                    } else {
                        assert(spans(list@) =~= seq![model[0].join(r@)] + model.skip(1));
                    }
                },
            }
        },
    }
}

/// Joining page-aligned intervals gives page-aligned intervals.
pub proof fn lemma_merge_aligned(s: Seq<Span>, r: Span)
    requires
        all_aligned(s),
        page_aligned(r),
    ensures
        all_aligned(merge(s, r)),
    decreases s.len(),
{
    let m = merge(s, r);
    if s.len() == 0 {
    } else if s[0].touches(r) {
        let joined = s[0].join(r);
        if s.len() > 1 && joined.touches(s[1]) {
            assert(page_aligned(s[1]));
            assert forall|i: int| 0 <= i < m.len() implies page_aligned(#[trigger] m[i]) by {
                if i > 0 {
                    assert(m[i] == s[i + 1]);
                }
            }
        } else {
            assert forall|i: int| 0 <= i < m.len() implies page_aligned(#[trigger] m[i]) by {
                if i > 0 {
                    assert(m[i] == s[i]);
                }
            }
        }
    } else {
        let t = s.skip(1);
        assert forall|i: int| 0 <= i < t.len() implies page_aligned(#[trigger] t[i]) by {
            assert(t[i] == s[i + 1]);
        }
        lemma_merge_aligned(t, r);
        assert forall|i: int| 0 <= i < m.len() implies page_aligned(#[trigger] m[i]) by {
            if i > 0 {
                assert(m[i] == merge(t, r)[i - 1]);
            }
        }
    }
}

/// Gives the region `r`, none of it free, back to the allocator.
pub fn free_vregion(va: &mut RegionAllocator, r: VRegion)
    requires
        old(va).wf(),
        r.wf(),
        !r@.is_empty(),
        holds_none_of(old(va)@, r@),
    ensures
        final(va).wf(),
        final(va)@ == merge(old(va)@, r@),
        final(va).free() == old(va).free().union(r@.points()),
{
    proof {
        lemma_holds_none_is_apart(va@, r@);
        lemma_merge(va@, r@);
        lemma_merge_aligned(va@, r@);
    }
    merge_into(&mut va.available, r);
}

} // verus!
