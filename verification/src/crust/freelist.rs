//! The model of a free list: a sequence of intervals that are apart from each other,
//! searched first-fit and coalesced when an interval comes back.
use vstd::prelude::*;
use crate::intervals::Span;

verus! {

/// Every interval of the list holds a number, and no two of them overlap.
pub open spec fn list_wf(s: Seq<Span>) -> bool {
    &&& forall|i: int| 0 <= i < s.len() ==> (#[trigger] s[i]).wf() && !s[i].is_empty()
    &&& forall|i: int, j: int| 0 <= i < j < s.len() ==> (#[trigger] s[i]).apart(#[trigger] s[j])
}

/// Some interval of the list holds `x`.
pub open spec fn covers(s: Seq<Span>, x: int) -> bool {
    exists|i: int| 0 <= i < s.len() && (#[trigger] s[i]).contains(x)
}

/// The numbers that the list holds.
pub open spec fn points(s: Seq<Span>) -> Set<int> {
    Set::new(|x: int| covers(s, x))
}

/// `r` is apart from every interval of the list.
pub open spec fn apart_from_all(s: Seq<Span>, r: Span) -> bool {
    forall|i: int| 0 <= i < s.len() ==> (#[trigger] s[i]).apart(r)
}

/// The list after the first number of its first interval was taken.
pub open spec fn take_one(s: Seq<Span>) -> Seq<Span>
    recommends
        s.len() > 0,
{
    if s[0].len() == 1 {
        s.remove(0)
    } else {
        s.update(0, s[0].without_front(1))
    }
}

/// The position of the first interval of at least `n` numbers; the list's length if
/// there is none.
pub open spec fn first_fit(s: Seq<Span>, n: int) -> int
    decreases s.len(),
{
    if s.len() == 0 {
        0
    } else if s[0].len() >= n {
        0
    } else {
        1 + first_fit(s.skip(1), n)
    }
}

/// The list after `n` numbers were taken from the front of its first interval that has
/// as many.
pub open spec fn take_n(s: Seq<Span>, n: int) -> Seq<Span>
    recommends
        first_fit(s, n) < s.len(),
{
    let i = first_fit(s, n);
    if s[i].len() == n {
        s.remove(i)
    } else {
        s.update(i, s[i].without_front(n))
    }
}

/// The list after `r` came back: `r` is joined to the first interval that it touches,
/// and that one to its successor if they now touch; if `r` touches none, it goes to the
/// end.
pub open spec fn merge(s: Seq<Span>, r: Span) -> Seq<Span>
    decreases s.len(),
{
    if s.len() == 0 {
        seq![r]
    } else if s[0].touches(r) {
        let joined = s[0].join(r);
        if s.len() > 1 && joined.touches(s[1]) {
            seq![joined.join(s[1])] + s.skip(2)
        } else {
            seq![joined] + s.skip(1)
        }
    } else {
        seq![s[0]] + merge(s.skip(1), r)
    }
}

pub proof fn lemma_first_fit(s: Seq<Span>, n: int)
    ensures
        0 <= first_fit(s, n) <= s.len(),
        first_fit(s, n) < s.len() ==> s[first_fit(s, n)].len() >= n,
        forall|j: int| 0 <= j < first_fit(s, n) ==> (#[trigger] s[j]).len() < n,
    decreases s.len(),
{
    if s.len() > 0 && s[0].len() < n {
        lemma_first_fit(s.skip(1), n);
        assert forall|j: int| 0 <= j < first_fit(s, n) implies (#[trigger] s[j]).len() < n by {
            if j > 0 {
                assert(s.skip(1)[j - 1] == s[j]);
            }
        }
    }
}

/// The first interval of at least `n` numbers is where `first_fit` says.
pub proof fn lemma_first_fit_is(s: Seq<Span>, n: int, i: int)
    requires
        0 <= i < s.len(),
        s[i].len() >= n,
        forall|j: int| 0 <= j < i ==> (#[trigger] s[j]).len() < n,
    ensures
        first_fit(s, n) == i,
{
    lemma_first_fit(s, n);
}

/// No interval has `n` numbers: `first_fit` says so.
pub proof fn lemma_first_fit_none(s: Seq<Span>, n: int)
    requires
        forall|j: int| 0 <= j < s.len() ==> (#[trigger] s[j]).len() < n,
    ensures
        first_fit(s, n) == s.len(),
{
    lemma_first_fit(s, n);
}

/// Two touching intervals that are both apart from a third make an interval apart from
/// it.
pub proof fn lemma_join_apart(a: Span, b: Span, c: Span)
    requires
        a.wf(),
        b.wf(),
        c.wf(),
        !a.is_empty(),
        !b.is_empty(),
        !c.is_empty(),
        a.touches(b),
        a.apart(b),
        a.apart(c),
        b.apart(c),
    ensures
        a.join(b).apart(c),
        c.apart(a.join(b)),
        a.join(b).wf(),
        !a.join(b).is_empty(),
{
}

/// A well-formed list stays well-formed when an interval apart from all of it comes
/// back.
pub proof fn lemma_merge_wf(s: Seq<Span>, r: Span)
    requires
        list_wf(s),
        r.wf(),
        !r.is_empty(),
        apart_from_all(s, r),
    ensures
        list_wf(merge(s, r)),
        merge(s, r).len() <= s.len() + 1,
        forall|c: Span|
            c.wf() && !c.is_empty() && c.apart(r) && #[trigger] apart_from_all(s, c)
                ==> apart_from_all(merge(s, r), c),
    decreases s.len(),
{
    let m = merge(s, r);
    if s.len() == 0 {
    } else if s[0].touches(r) {
        let joined = s[0].join(r);
        if s.len() > 1 && joined.touches(s[1]) {
            let both = joined.join(s[1]);
            assert forall|i: int| 0 <= i < m.len() implies (#[trigger] m[i]).wf()
                && !m[i].is_empty() by {
                if i > 0 {
                    assert(m[i] == s[i + 1]);
                }
            }
            assert forall|i: int, j: int| 0 <= i < j < m.len() implies (#[trigger] m[i]).apart(
                #[trigger] m[j],
            ) by {
                assert(m[j] == s[j + 1]);
                if i > 0 {
                    assert(m[i] == s[i + 1]);
                } else {
                    assert(s[0].apart(s[j + 1]));
                    assert(s[1].apart(s[j + 1]));
                    assert(s[j + 1].apart(r));
                }
            }
            assert forall|c: Span|
                c.wf() && !c.is_empty() && c.apart(r) && #[trigger] apart_from_all(
                    s,
                    c,
                ) implies apart_from_all(m, c) by {
                assert forall|i: int| 0 <= i < m.len() implies (#[trigger] m[i]).apart(c) by {
                    if i > 0 {
                        assert(m[i] == s[i + 1]);
                        assert(s[i + 1].apart(c));
                    } else {
                        assert(s[0].apart(c));
                        assert(s[1].apart(c));
                    }
                }
            }
        } else {
            assert forall|i: int| 0 <= i < m.len() implies (#[trigger] m[i]).wf()
                && !m[i].is_empty() by {
                if i > 0 {
                    assert(m[i] == s[i]);
                }
            }
            assert forall|i: int, j: int| 0 <= i < j < m.len() implies (#[trigger] m[i]).apart(
                #[trigger] m[j],
            ) by {
                assert(m[j] == s[j]);
                if i > 0 {
                    assert(m[i] == s[i]);
                } else {
                    assert(s[0].apart(s[j]));
                    assert(s[j].apart(r));
                }
            }
            assert forall|c: Span|
                c.wf() && !c.is_empty() && c.apart(r) && #[trigger] apart_from_all(
                    s,
                    c,
                ) implies apart_from_all(m, c) by {
                assert forall|i: int| 0 <= i < m.len() implies (#[trigger] m[i]).apart(c) by {
                    if i > 0 {
                        assert(m[i] == s[i]);
                        assert(s[i].apart(c));
                    } else {
                        assert(s[0].apart(c));
                    }
                }
            }
        }
    } else {
        let t = s.skip(1);
        assert forall|i: int| 0 <= i < t.len() implies (#[trigger] t[i]).wf() && !t[i].is_empty()
            && t[i].apart(r) by {
            assert(t[i] == s[i + 1]);
        }
        assert forall|i: int, j: int| 0 <= i < j < t.len() implies (#[trigger] t[i]).apart(
            #[trigger] t[j],
        ) by {
            assert(t[i] == s[i + 1]);
            assert(t[j] == s[j + 1]);
        }
        lemma_merge_wf(t, r);
        let mt = merge(t, r);
        assert(apart_from_all(t, s[0])) by {
            assert forall|i: int| 0 <= i < t.len() implies (#[trigger] t[i]).apart(s[0]) by {
                assert(t[i] == s[i + 1]);
                assert(s[0].apart(s[i + 1]));
            }
        }
        assert(s[0].apart(r));
        assert(apart_from_all(mt, s[0]));
        assert forall|i: int| 0 <= i < m.len() implies (#[trigger] m[i]).wf()
            && !m[i].is_empty() by {
            if i > 0 {
                assert(m[i] == mt[i - 1]);
            }
        }
        assert forall|i: int, j: int| 0 <= i < j < m.len() implies (#[trigger] m[i]).apart(
            #[trigger] m[j],
        ) by {
            assert(m[j] == mt[j - 1]);
            if i > 0 {
                assert(m[i] == mt[i - 1]);
            } else {
                assert(mt[j - 1].apart(s[0]));
            }
        }
        assert forall|c: Span|
            c.wf() && !c.is_empty() && c.apart(r) && #[trigger] apart_from_all(
                s,
                c,
            ) implies apart_from_all(m, c) by {
            assert(apart_from_all(t, c)) by {
                assert forall|i: int| 0 <= i < t.len() implies (#[trigger] t[i]).apart(c) by {
                    assert(t[i] == s[i + 1]);
                    assert(s[i + 1].apart(c));
                }
            }
            assert(apart_from_all(mt, c));
            assert forall|i: int| 0 <= i < m.len() implies (#[trigger] m[i]).apart(c) by {
                if i > 0 {
                    assert(m[i] == mt[i - 1]);
                } else {
                    assert(s[0].apart(c));
                }
            }
        }
    }
}

/// The interval of the one number `x`.
pub open spec fn unit(x: int) -> Span {
    Span { start: x, end: x + 1 }
}

/// When an interval comes back, the list holds its numbers besides those it held, and
/// no others.
pub proof fn lemma_merge_points(s: Seq<Span>, r: Span)
    requires
        list_wf(s),
        r.wf(),
        !r.is_empty(),
        apart_from_all(s, r),
    ensures
        points(merge(s, r)) == points(s).union(r.points()),
    decreases s.len(),
{
    let m = merge(s, r);
    assert forall|x: int| covers(m, x) <==> (covers(s, x) || r.contains(x)) by {
        if s.len() == 0 {
            assert(m[0].contains(x) <==> r.contains(x));
        } else if s[0].touches(r) {
            let joined = s[0].join(r);
            assert(joined.contains(x) <==> s[0].contains(x) || r.contains(x));
            if s.len() > 1 && joined.touches(s[1]) {
                let both = joined.join(s[1]);
                assert(s[0].apart(s[1]));
                assert(s[1].apart(r));
                assert(both.contains(x) <==> joined.contains(x) || s[1].contains(x));
                assert(m[0] == both);
                if covers(m, x) {
                    let i = choose|i: int| 0 <= i < m.len() && (#[trigger] m[i]).contains(x);
                    if i > 0 {
                        assert(m[i] == s[i + 1]);
                    }
                }
                if covers(s, x) {
                    let i = choose|i: int| 0 <= i < s.len() && (#[trigger] s[i]).contains(x);
                    if i > 1 {
                        assert(m[i - 1] == s[i]);
                    }
                }
            } else {
                assert(m[0] == joined);
                if covers(m, x) {
                    let i = choose|i: int| 0 <= i < m.len() && (#[trigger] m[i]).contains(x);
                    if i > 0 {
                        assert(m[i] == s[i]);
                    }
                }
                if covers(s, x) {
                    let i = choose|i: int| 0 <= i < s.len() && (#[trigger] s[i]).contains(x);
                    if i > 0 {
                        assert(m[i] == s[i]);
                    }
                }
            }
        } else {
            let t = s.skip(1);
            lemma_skip_wf(s, r);
            lemma_merge_points(t, r);
            let mt = merge(t, r);
            assert(points(mt).contains(x) <==> points(t).contains(x) || r.points().contains(x));
            assert(covers(mt, x) <==> covers(t, x) || r.contains(x));
            if covers(m, x) {
                let i = choose|i: int| 0 <= i < m.len() && (#[trigger] m[i]).contains(x);
                if i > 0 {
                    assert(m[i] == mt[i - 1]);
                    assert(covers(mt, x));
                    if covers(t, x) {
                        let j = choose|j: int| 0 <= j < t.len() && (#[trigger] t[j]).contains(x);
                        assert(t[j] == s[j + 1]);
                    }
                } else {
                    assert(m[0] == s[0]);
                }
            }
            if covers(s, x) {
                let i = choose|i: int| 0 <= i < s.len() && (#[trigger] s[i]).contains(x);
                if i > 0 {
                    assert(t[i - 1] == s[i]);
                    assert(covers(t, x));
                    let j = choose|j: int| 0 <= j < mt.len() && (#[trigger] mt[j]).contains(x);
                    assert(m[j + 1] == mt[j]);
                } else {
                    assert(m[0] == s[0]);
                }
            }
            if r.contains(x) {
                assert(covers(mt, x));
                let j = choose|j: int| 0 <= j < mt.len() && (#[trigger] mt[j]).contains(x);
                assert(m[j + 1] == mt[j]);
            }
        }
    }
    assert(points(m) =~= points(s).union(r.points()));
}

/// The rest of a well-formed list is well-formed, and what is apart from the list is
/// apart from its rest.
pub proof fn lemma_skip_wf(s: Seq<Span>, r: Span)
    requires
        list_wf(s),
        s.len() > 0,
        apart_from_all(s, r),
    ensures
        list_wf(s.skip(1)),
        apart_from_all(s.skip(1), r),
{
    let t = s.skip(1);
    assert forall|i: int| 0 <= i < t.len() implies (#[trigger] t[i]).wf() && !t[i].is_empty()
        && t[i].apart(r) by {
        assert(t[i] == s[i + 1]);
    }
    assert forall|i: int, j: int| 0 <= i < j < t.len() implies (#[trigger] t[i]).apart(
        #[trigger] t[j],
    ) by {
        assert(t[i] == s[i + 1]);
        assert(t[j] == s[j + 1]);
    }
}

/// Taking numbers from the list leaves it well-formed, and removes from what it holds
/// exactly the numbers taken.
pub proof fn lemma_take_n_points(s: Seq<Span>, n: int)
    requires
        list_wf(s),
        n > 0,
        first_fit(s, n) < s.len(),
    ensures
        list_wf(take_n(s, n)),
        points(take_n(s, n)) == points(s).difference(s[first_fit(s, n)].front(n).points()),
        apart_from_all(take_n(s, n), s[first_fit(s, n)].front(n)),
{
    lemma_first_fit(s, n);
    let i = first_fit(s, n);
    let t = take_n(s, n);
    let taken = s[i].front(n);
    assert forall|x: int| covers(t, x) <==> (covers(s, x) && !taken.contains(x)) by {
        if covers(t, x) {
            let j = choose|j: int| 0 <= j < t.len() && (#[trigger] t[j]).contains(x);
            if s[i].len() == n {
                if j < i {
                    assert(t[j] == s[j]);
                    assert(s[j].apart(s[i]));
                } else {
                    assert(t[j] == s[j + 1]);
                    assert(s[i].apart(s[j + 1]));
                }
            } else {
                if j < i {
                    assert(s[j].apart(s[i]));
                } else if j > i {
                    assert(s[i].apart(s[j]));
                } else {
                    assert(s[i].contains(x));
                }
            }
        }
        if covers(s, x) && !taken.contains(x) {
            let j = choose|j: int| 0 <= j < s.len() && (#[trigger] s[j]).contains(x);
            if s[i].len() == n {
                if j < i {
                    assert(t[j] == s[j]);
                } else {
                    assert(j > i);
                    assert(t[j - 1] == s[j]);
                }
            } else {
                assert(t[j].contains(x));
            }
        }
    }
    assert(points(t) =~= points(s).difference(taken.points()));
    assert forall|j: int| 0 <= j < t.len() implies (#[trigger] t[j]).apart(taken) by {
        if s[i].len() == n {
            if j < i {
                assert(t[j] == s[j]);
                assert(s[j].apart(s[i]));
            } else {
                assert(t[j] == s[j + 1]);
                assert(s[i].apart(s[j + 1]));
            }
        } else {
            if j < i {
                assert(s[j].apart(s[i]));
            } else if j > i {
                assert(s[i].apart(s[j]));
            }
        }
    }
    assert forall|a: int, b: int| 0 <= a < b < t.len() implies (#[trigger] t[a]).apart(
        #[trigger] t[b],
    ) by {
        if s[i].len() == n {
            let a0 = if a < i { a } else { a + 1 };
            let b0 = if b < i { b } else { b + 1 };
            assert(t[a] == s[a0]);
            assert(t[b] == s[b0]);
            assert(s[a0].apart(s[b0]));
        } else {
            assert(s[a].apart(s[b]));
        }
    }
    assert forall|j: int| 0 <= j < t.len() implies (#[trigger] t[j]).wf() && !t[j].is_empty() by {
        if s[i].len() == n {
            let j0 = if j < i { j } else { j + 1 };
            assert(t[j] == s[j0]);
        } else {
            assert(s[j].wf());
        }
    }
}

/// Taking one number is taking a run of one.
pub proof fn lemma_take_one_is_take_n(s: Seq<Span>)
    requires
        list_wf(s),
        s.len() > 0,
    ensures
        take_one(s) == take_n(s, 1),
        first_fit(s, 1) == 0,
{
    assert(s[0].wf() && !s[0].is_empty());
}

/// A run that was taken from a list of one interval, given back at once, restores the
/// list: allocation followed by the matching free changes nothing.
pub proof fn lemma_take_give_back(h: Span, n: int)
    requires
        h.wf(),
        0 < n <= h.len(),
    ensures
        first_fit(seq![h], n) == 0,
        merge(take_n(seq![h], n), h.front(n)) == seq![h],
{
    let s = seq![h];
    assert(s[0] == h);
    let t = take_n(s, n);
    if h.len() == n {
        assert(t =~= Seq::<Span>::empty());
        assert(h.front(n) == h);
    } else {
        assert(t =~= seq![h.without_front(n)]);
        assert(t[0].touches(h.front(n)));
        assert(t[0].join(h.front(n)) == h);
        assert(merge(t, h.front(n)) =~= seq![h]);
    }
}

/// The list after `n` numbers were taken as `take_n` says and given back at once. It
/// holds the same numbers as before; its intervals may be joined otherwise.
pub open spec fn taken_and_back(s: Seq<Span>, n: int) -> Seq<Span> {
    merge(take_n(s, n), s[first_fit(s, n)].front(n))
}

/// The list after the numbers of `order` came back one by one, first to last.
pub open spec fn give_back(s: Seq<Span>, order: Seq<int>) -> Seq<Span>
    decreases order.len(),
{
    if order.len() == 0 {
        s
    } else {
        give_back(merge(s, unit(order[0])), order.skip(1))
    }
}

/// Each number of `order` lies directly below or directly above the interval that `h`
/// and the numbers before it make.
pub open spec fn grows(h: Span, order: Seq<int>) -> bool
    decreases order.len(),
{
    order.len() == 0 || ((order[0] == h.end || order[0] + 1 == h.start) && order[0] >= 0 && grows(
        h.join(unit(order[0])),
        order.skip(1),
    ))
}

/// The interval that `h` and the numbers of `order` make.
pub open spec fn grown(h: Span, order: Seq<int>) -> Span
    decreases order.len(),
{
    if order.len() == 0 {
        h
    } else {
        grown(h.join(unit(order[0])), order.skip(1))
    }
}

/// Numbers that come back to a list of one interval, each next to what is free by then,
/// leave a list of one interval.
pub proof fn lemma_give_back_growing(h: Span, order: Seq<int>)
    requires
        h.wf(),
        !h.is_empty(),
        grows(h, order),
    ensures
        give_back(seq![h], order) == seq![grown(h, order)],
        grown(h, order).wf(),
        grown(h, order).len() == h.len() + order.len(),
        grown(h, order).start <= h.start,
        h.end <= grown(h, order).end,
        forall|i: int| 0 <= i < order.len() ==> grown(h, order).contains(#[trigger] order[i]),
    decreases order.len(),
{
    if order.len() > 0 {
        let s = seq![h];
        let r = unit(order[0]);
        assert(s[0] == h);
        assert(h.touches(r));
        assert(merge(s, r) =~= seq![h.join(r)]);
        lemma_give_back_growing(h.join(r), order.skip(1));
        assert forall|i: int| 0 <= i < order.len() implies grown(h, order).contains(
            #[trigger] order[i],
        ) by {
            if i > 0 {
                assert(order.skip(1)[i - 1] == order[i]);
            }
        }
    }
}

/// The `count` slots from `first` on, all free and then all given back one by one, each
/// next to those that are free by then (lowest first, highest first, or outwards from
/// any of them), make a free list of the one range that they came from.
pub proof fn lemma_give_back_all(first: int, count: int, order: Seq<int>)
    requires
        first >= 0,
        count > 0,
        order.len() == count,
        forall|i: int| 0 <= i < order.len() ==> first <= #[trigger] order[i] < first + count,
        grows(unit(order[0]), order.skip(1)),
    ensures
        give_back(Seq::<Span>::empty(), order) == seq![Span { start: first, end: first + count }],
{
    let h = unit(order[0]);
    let rest = order.skip(1);
    assert(merge(Seq::<Span>::empty(), h) =~= seq![h]);
    lemma_give_back_growing(h, rest);
    let g = grown(h, rest);
    assert(g.contains(order[0]));
    assert(g.contains(g.start)) by {
        assert(g.wf() && g.len() >= 1);
    }
    lemma_grown_within(h, rest, first, first + count);
}

/// An interval that grows by numbers from `[lo, hi)` stays within `[lo, hi)`.
pub proof fn lemma_grown_within(h: Span, order: Seq<int>, lo: int, hi: int)
    requires
        lo <= h.start,
        h.end <= hi,
        h.start < h.end,
        grows(h, order),
        forall|i: int| 0 <= i < order.len() ==> lo <= #[trigger] order[i] < hi,
    ensures
        lo <= grown(h, order).start,
        grown(h, order).end <= hi,
    decreases order.len(),
{
    if order.len() > 0 {
        let r = unit(order[0]);
        assert forall|i: int| 0 <= i < order.skip(1).len() implies lo <= #[trigger] order.skip(
            1,
        )[i] < hi by {
            assert(order.skip(1)[i] == order[i + 1]);
        }
        lemma_grown_within(h.join(r), order.skip(1), lo, hi);
    }
}

/// Slots taken one by one from a list of one range and given back in the reverse order
/// leave the list as it was.
pub proof fn lemma_take_then_give_back_reversed(h: Span, k: int)
    requires
        h.wf(),
        0 <= k <= h.len(),
        !h.is_empty(),
    ensures
        give_back(take_many(seq![h], k), Seq::new(k as nat, |i: int| h.start + k - 1 - i)) == seq![
            h,
        ],
    decreases k,
{
    let order = Seq::new(k as nat, |i: int| h.start + k - 1 - i);
    if k == 0 {
    } else {
        lemma_take_many_single(h, k);
        lemma_take_many_single(h, k - 1);
        let t = take_many(seq![h], k);
        let r = unit(order[0]);
        let prev = take_many(seq![h], k - 1);
        assert(merge(t, r) =~= prev) by {
            if k == h.len() {
                assert(t =~= Seq::<Span>::empty());
                assert(prev =~= seq![h.without_front(k - 1)]);
                assert(r == h.without_front(k - 1));
            } else {
                assert(t[0] == h.without_front(k));
                assert(t[0].touches(r));
                assert(t[0].join(r) == h.without_front(k - 1));
            }
        }
        assert(order.skip(1) =~= Seq::new((k - 1) as nat, |i: int| h.start + (k - 1) - 1 - i));
        lemma_take_then_give_back_reversed(h, k - 1);
    }
}

/// The list after `k` numbers were taken from it one by one.
pub open spec fn take_many(s: Seq<Span>, k: int) -> Seq<Span>
    decreases k,
{
    if k <= 0 {
        s
    } else {
        take_one(take_many(s, k - 1))
    }
}

/// What is left of a list of one interval after `k` numbers were taken one by one.
pub proof fn lemma_take_many_single(h: Span, k: int)
    requires
        h.wf(),
        !h.is_empty(),
        0 <= k <= h.len(),
    ensures
        k < h.len() ==> take_many(seq![h], k) == seq![h.without_front(k)],
        k == h.len() ==> take_many(seq![h], k) == Seq::<Span>::empty(),
    decreases k,
{
    if k > 0 {
        lemma_take_many_single(h, k - 1);
        let p = take_many(seq![h], k - 1);
        assert(p == seq![h.without_front(k - 1)]);
        assert(p[0] == h.without_front(k - 1));
        if k < h.len() {
            assert(take_one(p) =~= seq![h.without_front(k)]);
        } else {
            assert(take_one(p) =~= Seq::<Span>::empty());
        }
    } else {
        assert(h.without_front(0) == h);
    }
}

/// The list holds none of the numbers of `r`.
pub open spec fn holds_none_of(s: Seq<Span>, r: Span) -> bool {
    points(s).disjoint(r.points())
}

/// A well-formed list holds none of the numbers of an interval exactly when the interval
/// is apart from each of the list's.
pub proof fn lemma_holds_none_is_apart(s: Seq<Span>, r: Span)
    requires
        list_wf(s),
        r.wf(),
        !r.is_empty(),
    ensures
        holds_none_of(s, r) <==> apart_from_all(s, r),
{
    if holds_none_of(s, r) {
        assert forall|i: int| 0 <= i < s.len() implies (#[trigger] s[i]).apart(r) by {
            crate::intervals::lemma_apart_is_disjoint(s[i], r);
            if !s[i].apart(r) {
                let x = choose|x: int| s[i].points().contains(x) && r.points().contains(x);
                assert(s[i].contains(x));
                assert(covers(s, x));
                assert(points(s).contains(x));
            }
        }
    }
    if apart_from_all(s, r) {
        assert forall|x: int| !(points(s).contains(x) && r.points().contains(x)) by {
            if covers(s, x) && r.contains(x) {
                let i = choose|i: int| 0 <= i < s.len() && (#[trigger] s[i]).contains(x);
                crate::intervals::lemma_apart_is_disjoint(s[i], r);
                assert(s[i].points().contains(x));
            }
        }
    }
}

/// What comes back makes the list hold its numbers too; the list stays well-formed.
pub proof fn lemma_merge(s: Seq<Span>, r: Span)
    requires
        list_wf(s),
        r.wf(),
        !r.is_empty(),
        holds_none_of(s, r),
    ensures
        list_wf(merge(s, r)),
        points(merge(s, r)) == points(s).union(r.points()),
        merge(s, r).len() <= s.len() + 1,
{
    lemma_holds_none_is_apart(s, r);
    lemma_merge_wf(s, r);
    lemma_merge_points(s, r);
}

/// What is taken leaves the list; the list stays well-formed.
pub proof fn lemma_take(s: Seq<Span>, n: int)
    requires
        list_wf(s),
        n > 0,
        first_fit(s, n) < s.len(),
    ensures
        list_wf(take_n(s, n)),
        points(take_n(s, n)) == points(s).difference(s[first_fit(s, n)].front(n).points()),
        s[first_fit(s, n)].front(n).points().subset_of(points(s)),
        s[first_fit(s, n)].front(n).wf(),
        s[first_fit(s, n)].front(n).len() == n,
        take_n(s, n).len() <= s.len(),
{
    lemma_take_n_points(s, n);
    lemma_first_fit(s, n);
    let i = first_fit(s, n);
    assert forall|x: int| s[i].front(n).points().contains(x) implies points(s).contains(x) by {
        assert(s[i].contains(x));
    }
}

/// Numbers that are taken and given back at once are free again, and no others: the
/// list holds what it held.
pub proof fn lemma_taken_and_back(s: Seq<Span>, n: int)
    requires
        list_wf(s),
        n > 0,
        first_fit(s, n) < s.len(),
    ensures
        list_wf(taken_and_back(s, n)),
        points(taken_and_back(s, n)) == points(s),
{
    lemma_take(s, n);
    let taken = s[first_fit(s, n)].front(n);
    let rest = take_n(s, n);
    assert(!taken.is_empty());
    assert(holds_none_of(rest, taken)) by {
        assert(points(rest).disjoint(taken.points()));
    }
    lemma_merge(rest, taken);
    assert(points(taken_and_back(s, n)) =~= points(s));
}

} // verus!
