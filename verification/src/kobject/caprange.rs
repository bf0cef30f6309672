use vstd::prelude::*;
use crate::intervals::Span;
use crate::kobject::cap::CapSlot;
use crate::kobject::capset::CapSlotSet;

verus! {

/// A half-open range of slot indices. Its view is the interval it covers.
#[derive(Debug)]
pub struct CapRange {
    start: usize,
    end: usize,
}

impl CapRange {
    pub closed spec fn spec_start(&self) -> usize {
        self.start
    }

    pub closed spec fn spec_end(&self) -> usize {
        self.end
    }

    pub open spec fn view(&self) -> Span {
        Span { start: self.spec_start() as int, end: self.spec_end() as int }
    }

    /// The range does not end before it starts.
    pub open spec fn wf(&self) -> bool {
        self@.wf()
    }

    /// The range of the one slot `capslot`.
    pub fn single(capslot: usize) -> (r: CapRange)
        requires
            capslot < usize::MAX,
        ensures
            r.wf(),
            r@ == (Span { start: capslot as int, end: capslot + 1 }),
    {
        CapRange { start: capslot, end: capslot + 1 }
    }

    pub fn range(start: usize, end: usize) -> (r: CapRange)
        requires
            start <= end,
        ensures
            r.wf(),
            r@ == (Span { start: start as int, end: end as int }),
    {
        CapRange { start, end }
    }

    #[verifier::when_used_as_spec(spec_start)]
    pub fn start(&self) -> (r: usize)
        ensures
            r == self@.start,
    {
        self.start
    }

    pub fn len(&self) -> (r: usize)
        requires
            self.wf(),
        ensures
            r == self@.len(),
    {
        self.end - self.start
    }

    /// The `i`th slot of the range.
    pub fn nth(&self, i: usize) -> (r: CapSlot)
        requires
            self.wf(),
            i < self@.len(),
        ensures
            r@ == self@.start + i,
    {
        CapSlot::from_index(self.start + i)
    }

    pub fn is_empty(&self) -> (r: bool)
        requires
            self.wf(),
        ensures
            r == self@.is_empty(),
    {
        self.end == self.start
    }

    /// Whether this range starts no earlier than `other`.
    pub fn is_after(&self, other: &CapRange) -> (r: bool)
        ensures
            r == (self@.start >= other@.start),
    {
        self.start >= other.start
    }

    /// Takes the first slot off the range.
    pub fn chop_1(&mut self) -> (r: Option<usize>)
        requires
            old(self).wf(),
        ensures
            final(self).wf(),
            old(self)@.is_empty() ==> r is None && final(self)@ == old(self)@,
            !old(self)@.is_empty() ==> r == Some(old(self).spec_start()) && final(self)@
                == old(self)@.without_front(1),
    {
        if self.is_empty() {
            None
        } else {
            self.start += 1;
            Some(self.start - 1)
        }
    }

    /// Takes the first `n` slots off the range.
    pub fn chop_n(&mut self, n: usize) -> (r: Option<CapRange>)
        requires
            old(self).wf(),
        ensures
            final(self).wf(),
            n > old(self)@.len() ==> r is None && final(self)@ == old(self)@,
            n <= old(self)@.len() ==> r is Some && r.unwrap().wf() && r.unwrap()@
                == old(self)@.front(n as int) && final(self)@ == old(self)@.without_front(n as int),
    {
        if n > self.len() {
            None
        } else {
            let out = CapRange { start: self.start, end: self.start + n };
            self.start += n;
            Some(out)
        }
    }

    /// Reports the overlap of two ranges. Ranges that the allocators hold never overlap.
    pub fn intersection(&self, other: &CapRange) -> (r: Option<CapRange>)
        ensures
            r is None <==> self@.apart(other@),
            r matches Some(x) ==> Some(x@) == self@.overlap(other@),
    {
        let (lower, higher) = if self.start < other.start {
            (self, other)
        } else {
            (other, self)
        };
        if lower.end > higher.start {
            Some(CapRange { start: higher.start, end: lower.end })
        } else {
            None
        }
    }

    /// Makes one range of two that touch; hands both back if they do not.
    pub fn join(self, other: CapRange) -> (r: Result<CapRange, (CapRange, CapRange)>)
        requires
            self@.apart(other@),
        ensures
            self@.touches(other@) ==> (r matches Ok(j) && j@ == self@.join(other@)),
            !self@.touches(other@) ==> r == Err::<CapRange, (CapRange, CapRange)>((self, other)),
    {
        if self.end == other.start {
            Ok(CapRange { start: self.start, end: other.end })
        } else if self.start == other.end {
            Ok(CapRange { start: other.start, end: self.end })
        } else {
            Err((self, other))
        }
    }

    /// Takes `other` into this range if the two touch; hands it back if they do not.
    pub fn join_mut(&mut self, other: CapRange) -> (r: Option<CapRange>)
        requires
            old(self)@.apart(other@),
        ensures
            old(self)@.touches(other@) ==> r is None && final(self)@ == old(self)@.join(other@),
            !old(self)@.touches(other@) ==> r == Some(other) && final(self)@ == old(self)@,
    {
        if self.end == other.start {
            self.end = other.end;
            None
        } else if self.start == other.end {
            self.start = other.start;
            None
        } else {
            Some(other)
        }
    }

    pub fn could_join(&self, other: &CapRange) -> (r: bool)
        requires
            self@.apart(other@),
        ensures
            r == self@.touches(other@),
    {
        self.end == other.start || self.start == other.end
    }

    /// The set over this range with no slot in it.
    pub fn to_set_empty(&self) -> (r: CapSlotSet)
        requires
            self@.start < self@.end,
        ensures
            r.wf(),
            r@.start == self@.start,
            r@.end == self@.end,
            r@.is_vacant(),
    {
        CapSlotSet::empty_range(self.start, self.end)
    }

    /// The set over this range, declared to hold every slot of it.
    pub fn to_set_asserted_full(&self) -> (r: CapSlotSet)
        requires
            self@.start < self@.end,
        ensures
            r.wf(),
            r@.start == self@.start,
            r@.end == self@.end,
            r@.is_full(),
    {
        let mut css = self.to_set_empty();
        css.assert_full();
        css
    }
}

} // verus!
