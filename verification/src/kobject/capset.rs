use vstd::prelude::*;
use crate::kobject::cap::{deleted, lemma_deleted_extends, Cap, CapSlot};
use crate::kobject::caprange::CapRange;
use crate::mantle::kio::{extends, group_extends, Event, Machine, Syscalls};

verus! {

broadcast use group_extends;

/// The model of a set of slots: the range `[start, end)` that it is over, and the window
/// `[fillstart, fillend)` of slots that are in it.
pub struct SlotWindow {
    pub start: int,
    pub end: int,
    pub fillstart: int,
    pub fillend: int,
}

impl SlotWindow {
    pub open spec fn wf(self) -> bool {
        0 <= self.start <= self.fillstart <= self.fillend <= self.end
    }

    pub open spec fn capacity(self) -> int {
        self.end - self.start
    }

    pub open spec fn count(self) -> int {
        self.fillend - self.fillstart
    }

    /// No slot is in the set.
    pub open spec fn is_vacant(self) -> bool {
        self.fillstart == self.fillend
    }

    /// Every slot of the range is in the set.
    pub open spec fn is_full(self) -> bool {
        self.fillstart == self.start && self.fillend == self.end
    }

    /// Whether the slot `index` may be put back: next to the window at either side, or
    /// anywhere in the range while the set is vacant.
    pub open spec fn accepts(self, index: int) -> bool {
        if self.is_vacant() {
            self.start <= index < self.end
        } else {
            (self.fillstart == index + 1 && self.fillstart > self.start) || (self.fillend == index
                && self.fillend < self.end)
        }
    }

    /// The set after slot `index` was put back.
    pub open spec fn with(self, index: int) -> SlotWindow {
        if self.is_vacant() {
            SlotWindow { fillstart: index, fillend: index + 1, ..self }
        } else if self.fillstart == index + 1 {
            SlotWindow { fillstart: self.fillstart - 1, ..self }
        } else {
            SlotWindow { fillend: self.fillend + 1, ..self }
        }
    }

    /// The same range with no slot in the set.
    pub open spec fn vacated(self) -> SlotWindow {
        SlotWindow { fillstart: self.start, fillend: self.start, ..self }
    }

    /// The same range with every slot in the set.
    pub open spec fn filled(self) -> SlotWindow {
        SlotWindow { fillstart: self.start, fillend: self.end, ..self }
    }
}

/// The set after the `k` lowest slots were taken out.
pub open spec fn taken_front(w: SlotWindow, k: int) -> SlotWindow {
    SlotWindow { fillstart: w.fillstart + k, ..w }
}

/// The set after the `k` slots below `top` were put back one by one, highest first.
pub open spec fn put_back(w: SlotWindow, top: int, k: int) -> SlotWindow
    decreases k,
{
    if k <= 0 {
        w
    } else {
        put_back(w.with(top - 1), top - 1, k - 1)
    }
}

/// Every one of the `k` slots below `top` may be put back in its turn, highest first.
pub open spec fn accepts_back(w: SlotWindow, top: int, k: int) -> bool
    decreases k,
{
    k <= 0 || (w.accepts(top - 1) && accepts_back(w.with(top - 1), top - 1, k - 1))
}

/// Slots that are taken from the front of a full set and put back in the reverse order
/// make the set full again: so the children of a split untyped, given back last taken
/// first, restore the set that `free` needs to undo the split.
pub proof fn lemma_take_put_back(w: SlotWindow, k: int)
    requires
        w.wf(),
        w.is_full(),
        0 <= k <= w.capacity(),
    ensures
        accepts_back(taken_front(w, k), w.start + k, k),
        put_back(taken_front(w, k), w.start + k, k) == w,
    decreases k,
{
    if k > 0 {
        let t = taken_front(w, k);
        assert(t.accepts(w.start + k - 1));
        assert(t.with(w.start + k - 1) == taken_front(w, k - 1));
        lemma_take_put_back(w, k - 1);
    } else {
        assert(taken_front(w, 0) == w);
    }
}

/// A set of empty slots out of one range; the slots in it are contiguous.
#[must_use]
pub struct CapSlotSet {
    start: usize,
    end: usize,
    fillstart: usize,
    fillend: usize,
}

impl CapSlotSet {
    pub closed spec fn spec_start(&self) -> usize {
        self.start
    }

    pub closed spec fn spec_end(&self) -> usize {
        self.end
    }

    pub closed spec fn spec_fillstart(&self) -> usize {
        self.fillstart
    }

    pub closed spec fn spec_fillend(&self) -> usize {
        self.fillend
    }

    pub open spec fn view(&self) -> SlotWindow {
        SlotWindow {
            start: self.spec_start() as int,
            end: self.spec_end() as int,
            fillstart: self.spec_fillstart() as int,
            fillend: self.spec_fillend() as int,
        }
    }

    pub open spec fn wf(&self) -> bool {
        self@.wf()
    }

    /// The set over `[start, end)` with no slot in it.
    pub fn empty_range(start: usize, end: usize) -> (r: CapSlotSet)
        requires
            start <= end,
        ensures
            r.wf(),
            r@ == (SlotWindow {
                start: start as int,
                end: end as int,
                fillstart: start as int,
                fillend: start as int,
            }),
    {
        let empty_cursor = start;
        CapSlotSet { start, end, fillstart: empty_cursor, fillend: empty_cursor }
    }

    #[verifier::when_used_as_spec(spec_start)]
    pub fn start(&self) -> (r: usize)
        ensures
            r == self@.start,
    {
        self.start
    }

    pub fn capacity(&self) -> (r: usize)
        requires
            self.wf(),
        ensures
            r == self@.capacity(),
    {
        self.end - self.start
    }

    pub fn count(&self) -> (r: usize)
        requires
            self.wf(),
        ensures
            r == self@.count(),
    {
        self.fillend - self.fillstart
    }

    /// Whether any slot is in the set.
    pub fn remaining(&self) -> (r: bool)
        requires
            self.wf(),
        ensures
            r == !self@.is_vacant(),
    {
        self.fillstart != self.fillend
    }

    pub fn full(&self) -> (r: bool)
        requires
            self.wf(),
        ensures
            r == self@.is_full(),
    {
        self.fillstart == self.start && self.fillend == self.end
    }

    /// Declares that every slot of the range is in the set.
    pub fn assert_full(&mut self)
        requires
            old(self)@.start < old(self)@.end,
        ensures
            final(self).wf(),
            final(self)@ == old(self)@.filled(),
    {
        self.fillstart = self.start;
        self.fillend = self.end;
    }

    /// Declares that no slot is in the set.
    pub fn assert_empty(&mut self)
        requires
            old(self)@.start < old(self)@.end,
        ensures
            final(self).wf(),
            final(self)@ == old(self)@.vacated(),
    {
        self.fillstart = self.start;
        self.fillend = self.start;
    }

    /// Takes the lowest slot out of the set.
    pub fn take_front(&mut self) -> (r: Option<CapSlot>)
        requires
            old(self).wf(),
        ensures
            final(self).wf(),
            old(self)@.is_vacant() ==> r is None && final(self)@ == old(self)@,
            !old(self)@.is_vacant() ==> r is Some && r.unwrap()@ == old(self)@.fillstart
                && final(self)@ == (SlotWindow {
                fillstart: old(self)@.fillstart + 1,
                ..old(self)@
            }),
    {
        if self.remaining() {
            let out = self.fillstart;
            self.fillstart += 1;
            Some(CapSlot::from_index(out))
        } else {
            None
        }
    }

    /// Takes the highest slot out of the set.
    pub fn take_back(&mut self) -> (r: Option<CapSlot>)
        requires
            old(self).wf(),
        ensures
            final(self).wf(),
            old(self)@.is_vacant() ==> r is None && final(self)@ == old(self)@,
            !old(self)@.is_vacant() ==> r is Some && r.unwrap()@ == old(self)@.fillend - 1
                && final(self)@ == (SlotWindow { fillend: old(self)@.fillend - 1, ..old(self)@ }),
    {
        if self.remaining() {
            self.fillend -= 1;
            Some(CapSlot::from_index(self.fillend))
        } else {
            None
        }
    }

    /// Puts a slot back: next to those in the set, or anywhere in the range while the set
    /// holds none.
    pub fn readd(&mut self, slot: CapSlot)
        requires
            old(self).wf(),
            old(self)@.accepts(slot@ as int),
        ensures
            final(self).wf(),
            final(self)@ == old(self)@.with(slot@ as int),
    {
        let index = slot.deconstruct();
        if self.remaining() {
            if self.fillstart == index + 1 {
                self.fillstart -= 1
            } else if self.fillend == index {
                self.fillend += 1;
            }
        } else {
            self.fillstart = index;
            self.fillend = index + 1;
        }
    }

    /// Gives up the set, which must hold every slot, for the range it was over.
    pub fn deconstruct(self) -> (r: CapRange)
        requires
            self.wf(),
            self@.is_full(),
        ensures
            r.wf(),
            r@.start == self@.start,
            r@.end == self@.end,
    {
        self.equivalent_range()
    }

    /// The range that the set is over.
    pub fn equivalent_range(&self) -> (r: CapRange)
        requires
            self.wf(),
        ensures
            r.wf(),
            r@.start == self@.start,
            r@.end == self@.end,
    {
        CapRange::range(self.start, self.end)
    }

    /// A set over the same range with no slot in it.
    pub fn equivalent_empty_slotset(&self) -> (r: CapSlotSet)
        requires
            self@.start < self@.end,
        ensures
            r.wf(),
            r@ == self@.vacated(),
    {
        CapSlotSet::empty_range(self.start, self.end)
    }

    /// A set of capabilities over the same range with none in it.
    pub fn equivalent_empty_set(&self) -> (r: CapSet)
        requires
            self@.start < self@.end,
        ensures
            r.wf(),
            r@ == self@.vacated(),
    {
        CapSet { backing: self.equivalent_empty_slotset() }
    }

    /// Declares that every slot of the range now holds a capability: the set of
    /// capabilities over the range is returned full, and this set is left vacant.
    pub fn assert_derive_capset(&mut self) -> (r: CapSet)
        requires
            old(self)@.start < old(self)@.end,
        ensures
            final(self).wf(),
            final(self)@ == old(self)@.vacated(),
            r.wf(),
            r@ == old(self)@.filled(),
    {
        let mut out: CapSet = self.equivalent_empty_set();
        out.assert_full();
        self.assert_empty();
        out
    }
}

/// The record `after` is the record `before` with the deletions of the capabilities in
/// the slots from `from` up to `to`, lowest first.
pub open spec fn deleted_all(before: Seq<Event>, from: int, to: int, after: Seq<Event>) -> bool
    decreases to - from,
{
    if from >= to {
        after == before
    } else {
        exists|mid: Seq<Event>|
            #[trigger] between(mid) && deleted_all(before, from, to - 1, mid) && deleted(
                mid,
                (to - 1) as usize,
                after,
            )
    }
}

/// Marks a record as the one between two parts of a longer record.
pub open spec fn between(mid: Seq<Event>) -> bool {
    true
}

/// Deletions leave what was recorded before them.
pub broadcast proof fn lemma_deleted_all_extends(
    before: Seq<Event>,
    from: int,
    to: int,
    after: Seq<Event>,
)
    requires
        #[trigger] deleted_all(before, from, to, after),
    ensures
        extends(before, after),
    decreases to - from,
{
    broadcast use group_extends;

    if from >= to {
    } else {
        let mid = choose|mid: Seq<Event>|
            #[trigger] between(mid) && deleted_all(before, from, to - 1, mid) && deleted(
                mid,
                (to - 1) as usize,
                after,
            );
        lemma_deleted_all_extends(before, from, to - 1, mid);
        lemma_deleted_extends(mid, (to - 1) as usize, after);
    }
}

/// One more deletion extends the deletions before it.
pub proof fn lemma_deleted_one_more(
    before: Seq<Event>,
    from: int,
    to: int,
    mid: Seq<Event>,
    after: Seq<Event>,
)
    requires
        from < to,
        deleted_all(before, from, to - 1, mid),
        deleted(mid, (to - 1) as usize, after),
    ensures
        deleted_all(before, from, to, after),
{
    assert(between(mid));
}

/// A set of capabilities out of one range of slots; those in it are contiguous.
#[must_use]
pub struct CapSet {
    backing: CapSlotSet,
}

impl CapSet {
    pub closed spec fn view(&self) -> SlotWindow {
        self.backing@
    }

    pub open spec fn wf(&self) -> bool {
        self@.wf()
    }

    pub fn start(&self) -> (r: usize)
        ensures
            r == self@.start,
    {
        self.backing.start()
    }

    pub fn capacity(&self) -> (r: usize)
        requires
            self.wf(),
        ensures
            r == self@.capacity(),
    {
        self.backing.capacity()
    }

    pub fn count(&self) -> (r: usize)
        requires
            self.wf(),
        ensures
            r == self@.count(),
    {
        self.backing.count()
    }

    pub fn remaining(&self) -> (r: bool)
        requires
            self.wf(),
        ensures
            r == !self@.is_vacant(),
    {
        self.backing.remaining()
    }

    pub fn full(&self) -> (r: bool)
        requires
            self.wf(),
        ensures
            r == self@.is_full(),
    {
        self.backing.full()
    }

    pub fn assert_full(&mut self)
        requires
            old(self)@.start < old(self)@.end,
        ensures
            final(self).wf(),
            final(self)@ == old(self)@.filled(),
    {
        self.backing.assert_full()
    }

    pub fn assert_empty(&mut self)
        requires
            old(self)@.start < old(self)@.end,
        ensures
            final(self).wf(),
            final(self)@ == old(self)@.vacated(),
    {
        self.backing.assert_empty()
    }

    /// Has the kernel delete every capability of the set, lowest first, and returns the
    /// set of the slots that they leave empty.
    pub fn delete_all<S: Syscalls>(self, k: &mut Machine<S>) -> (r: CapSlotSet)
        requires
            self.wf(),
            self@.start < self@.end,
        ensures
            r.wf(),
            r@.start == self@.start,
            r@.end == self@.end,
            r@.count() == self@.count(),
            !self@.is_vacant() ==> r@ == self@,
            deleted_all(old(k)@, self@.fillstart, self@.fillend, final(k)@),
            extends(old(k)@, final(k)@),
    {
        let mut set = self;
        let mut slotset = set.equivalent_empty_slotset();
        loop
            invariant
                extends(old(k)@, k@),
                set.wf(),
                slotset.wf(),
                set@.start == self@.start,
                set@.end == self@.end,
                set@.fillend == self@.fillend,
                self@.fillstart <= set@.fillstart,
                slotset@.start == self@.start,
                slotset@.end == self@.end,
                set@.fillstart == self@.fillstart ==> slotset@.is_vacant(),
                set@.fillstart > self@.fillstart ==> slotset@.fillstart == self@.fillstart
                    && slotset@.fillend == set@.fillstart,
                deleted_all(old(k)@, self@.fillstart, set@.fillstart, k@),
            ensures
                set@.is_vacant(),
            decreases set@.count(),
        {
            match set.take_front() {
                Some(cap) => {
                    let ghost mid = k@;
                    let ghost at = cap@;
                    let slot = cap.delete(k);
                    slotset.readd(slot);
                    proof {
                        let to = set@.fillstart;
                        assert(to - 1 == at);
                        assert(deleted_all(old(k)@, self@.fillstart, to - 1, mid));
                        assert(deleted(mid, (to - 1) as usize, k@));
                        lemma_deleted_one_more(old(k)@, self@.fillstart, to, mid, k@);
                    }
                },
                None => {
                    break ;
                },
            }
        }
        slotset
    }

    pub fn take_front(&mut self) -> (r: Option<Cap>)
        requires
            old(self).wf(),
        ensures
            final(self).wf(),
            old(self)@.is_vacant() ==> r is None && final(self)@ == old(self)@,
            !old(self)@.is_vacant() ==> r is Some && r.unwrap()@ == old(self)@.fillstart
                && final(self)@ == (SlotWindow {
                fillstart: old(self)@.fillstart + 1,
                ..old(self)@
            }),
    {
        if let Some(slot) = self.backing.take_front() {
            Some(slot.assert_populated())
        } else {
            None
        }
    }

    pub fn take_back(&mut self) -> (r: Option<Cap>)
        requires
            old(self).wf(),
        ensures
            final(self).wf(),
            old(self)@.is_vacant() ==> r is None && final(self)@ == old(self)@,
            !old(self)@.is_vacant() ==> r is Some && r.unwrap()@ == old(self)@.fillend - 1
                && final(self)@ == (SlotWindow { fillend: old(self)@.fillend - 1, ..old(self)@ }),
    {
        if let Some(slot) = self.backing.take_back() {
            Some(slot.assert_populated())
        } else {
            None
        }
    }

    pub fn readd(&mut self, slot: Cap)
        requires
            old(self).wf(),
            old(self)@.accepts(slot@ as int),
        ensures
            final(self).wf(),
            final(self)@ == old(self)@.with(slot@ as int),
    {
        self.backing.readd(slot.assert_unpopulated())
    }

    pub fn equivalent_range(&self) -> (r: CapRange)
        requires
            self.wf(),
        ensures
            r.wf(),
            r@.start == self@.start,
            r@.end == self@.end,
    {
        self.backing.equivalent_range()
    }

    pub fn equivalent_empty_slotset(&self) -> (r: CapSlotSet)
        requires
            self@.start < self@.end,
        ensures
            r.wf(),
            r@ == self@.vacated(),
    {
        self.backing.equivalent_empty_slotset()
    }

    pub fn equivalent_empty_set(&self) -> (r: CapSet)
        requires
            self@.start < self@.end,
        ensures
            r.wf(),
            r@ == self@.vacated(),
    {
        self.backing.equivalent_empty_set()
    }
}

} // verus!
