//! Half-open intervals of natural numbers, the model of a range of capability slots and
//! of a region of virtual addresses.
use vstd::prelude::*;

verus! {

/// The interval from `start` up to, not including, `end`.
pub struct Span {
    pub start: int,
    pub end: int,
}

impl Span {
    pub open spec fn wf(self) -> bool {
        0 <= self.start <= self.end
    }

    pub open spec fn len(self) -> int {
        self.end - self.start
    }

    pub open spec fn is_empty(self) -> bool {
        self.end == self.start
    }

    pub open spec fn contains(self, i: int) -> bool {
        self.start <= i < self.end
    }

    /// The numbers in the interval.
    pub open spec fn points(self) -> Set<int> {
        Set::new(|i: int| self.contains(i))
    }

    /// What a check for common points reports: of the one that starts first, the part
    /// from where the other starts, unless the first ends before that.
    pub open spec fn overlap(self, other: Span) -> Option<Span> {
        let (lower, higher) = if self.start < other.start {
            (self, other)
        } else {
            (other, self)
        };
        if lower.end > higher.start {
            Some(Span { start: higher.start, end: lower.end })
        } else {
            None
        }
    }

    /// No overlap is reported for the two.
    pub open spec fn apart(self, other: Span) -> bool {
        self.overlap(other) is None
    }

    /// One ends where the other starts.
    pub open spec fn touches(self, other: Span) -> bool {
        self.end == other.start || self.start == other.end
    }

    /// The interval that two touching intervals make together.
    pub open spec fn join(self, other: Span) -> Span {
        if self.end == other.start {
            Span { start: self.start, end: other.end }
        } else {
            Span { start: other.start, end: self.end }
        }
    }

    /// The first `n` numbers of the interval.
    pub open spec fn front(self, n: int) -> Span {
        Span { start: self.start, end: self.start + n }
    }

    /// The interval without its first `n` numbers.
    pub open spec fn without_front(self, n: int) -> Span {
        Span { start: self.start + n, end: self.end }
    }
}

/// Two intervals with at least one number each are apart exactly when they share no
/// number.
pub proof fn lemma_apart_is_disjoint(a: Span, b: Span)
    requires
        a.wf(),
        b.wf(),
        !a.is_empty(),
        !b.is_empty(),
    ensures
        a.apart(b) <==> a.points().disjoint(b.points()),
        a.apart(b) <==> b.apart(a),
{
    if !a.apart(b) {
        let x = if a.start < b.start {
            b.start
        } else {
            a.start
        };
        assert(a.points().contains(x) && b.points().contains(x));
    }
}

/// Joining two touching intervals that are apart gives exactly the numbers of both.
pub proof fn lemma_join_points(a: Span, b: Span)
    requires
        a.wf(),
        b.wf(),
        a.touches(b),
        a.apart(b),
    ensures
        a.join(b).wf(),
        a.join(b).points() == a.points().union(b.points()),
        a.join(b).len() == a.len() + b.len(),
{
    assert(a.join(b).points() =~= a.points().union(b.points()));
}

} // verus!
