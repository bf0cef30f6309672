use vstd::prelude::*;

verus! {

/// One node of a list: an element and the rest of the list.
pub struct Pair<T> {
    head: T,
    tail: Box<LinkedList<T>>,
}

/// A singly-linked list. Its view is the sequence of its elements, head first.
pub enum LinkedList<T> {
    Empty,
    List(Pair<T>),
}

/// `i` is the position of the first element of `s` that `p` accepts.
pub open spec fn is_first_match<T, P: Fn(&T) -> bool>(s: Seq<T>, p: P, i: int) -> bool {
    &&& 0 <= i < s.len()
    &&& p.ensures((&s[i],), true)
    &&& forall|j: int| 0 <= j < i ==> p.ensures((&#[trigger] s[j],), false)
}

/// `p` rejects every element of `s`.
pub open spec fn no_match<T, P: Fn(&T) -> bool>(s: Seq<T>, p: P) -> bool {
    forall|j: int| 0 <= j < s.len() ==> p.ensures((&#[trigger] s[j],), false)
}

/// `p` may be called on every element of `s`.
pub open spec fn callable_on<T, P: Fn(&T) -> bool>(s: Seq<T>, p: P) -> bool {
    forall|j: int| 0 <= j < s.len() ==> p.requires((&#[trigger] s[j],))
}

impl<T> Pair<T> {
    fn split(self) -> (r: (T, LinkedList<T>))
        ensures
            r.0 == self.head,
            r.1 == *self.tail,
    {
        let Pair { head, tail } = self;
        (head, *tail)
    }
}

impl<T> LinkedList<T> {
    pub closed spec fn view(&self) -> Seq<T>
        decreases self,
    {
        match self {
            LinkedList::Empty => Seq::empty(),
            LinkedList::List(pair) => seq![pair.head] + pair.tail.view(),
        }
    }

    /// The list without elements.
    pub fn empty() -> (r: LinkedList<T>)
        ensures
            r@ == Seq::<T>::empty(),
    {
        LinkedList::Empty
    }

    /// The list that holds the items of `items` in their order.
    pub fn collect(items: Vec<T>) -> (r: Option<LinkedList<T>>)
        ensures
            r matches Some(list) && list@ == items@,
    {
        let mut items = items;
        let mut base: LinkedList<T> = LinkedList::Empty;
        let ghost all = items@;
        while items.len() > 0
            invariant
                items@.len() <= all.len(),
                all == items@ + base@,
            decreases items@.len(),
        {
            let ghost before = items@;
            let item = items.pop().unwrap();
            let _ = base.pushmut(item);
            assert(all =~= items@ + base@) by {
                assert(before =~= items@ + seq![item]);
            }
        }
        assert(all =~= base@);
        Some(base)
    }

    pub fn is_empty(&self) -> (r: bool)
        ensures
            r == (self@.len() == 0),
    {
        match self {
            LinkedList::Empty => true,
            LinkedList::List(_) => false,
        }
    }

    /// The list with `x` in front. Node storage comes from the global allocator, so the
    /// push always succeeds.
    pub fn push(self, x: T) -> (r: Result<LinkedList<T>, (LinkedList<T>, T)>)
        ensures
            r matches Ok(list) && list@ == seq![x] + self@,
    {
        Ok(LinkedList::List(Pair { head: x, tail: Box::new(self) }))
    }

    /// Puts `x` in front of the list in place.
    pub fn pushmut(&mut self, x: T) -> (r: Result<(), T>)
        ensures
            r is Ok,
            final(self)@ == seq![x] + old(self)@,
    {
        let mut removed = LinkedList::Empty;
        core::mem::swap(self, &mut removed);
        *self = LinkedList::List(Pair { head: x, tail: Box::new(removed) });
        Ok(())
    }

    /// Splits the list into its first element and the rest.
    pub fn pop(self) -> (r: Option<(T, LinkedList<T>)>)
        ensures
            self@.len() == 0 ==> r is None,
            self@.len() > 0 ==> (r matches Some((x, rest)) && x == self@[0] && rest@
                == self@.skip(1)),
    {
        match self {
            LinkedList::List(pair) => {
                let (head, tail) = pair.split();
                assert(tail@ =~= self@.skip(1));
                Some((head, tail))
            },
            LinkedList::Empty => None,
        }
    }

    /// Takes the first element out of the list in place.
    pub fn popmut(&mut self) -> (r: Option<T>)
        ensures
            old(self)@.len() == 0 ==> r is None && final(self)@ == old(self)@,
            old(self)@.len() > 0 ==> r == Some(old(self)@[0]) && final(self)@ == old(self)@.skip(1),
    {
        let mut removed = LinkedList::Empty;
        core::mem::swap(self, &mut removed);
        match removed {
            LinkedList::List(pair) => {
                let (head, tail) = pair.split();
                *self = tail;
                assert(self@ =~= old(self)@.skip(1));
                Some(head)
            },
            LinkedList::Empty => None,
        }
    }

    pub fn head(&self) -> (r: Option<&T>)
        ensures
            self@.len() == 0 ==> r is None,
            self@.len() > 0 ==> (r matches Some(x) && *x == self@[0]),
    {
        match self {
            LinkedList::List(pair) => Some(&pair.head),
            LinkedList::Empty => None,
        }
    }

    pub fn headmut(&mut self) -> (r: Option<&mut T>)
        ensures
            old(self)@.len() == 0 ==> r is None && final(self)@ == old(self)@,
            old(self)@.len() > 0 ==> r is Some && *r.unwrap() == old(self)@[0] && final(self)@
                == old(self)@.update(0, *final(r.unwrap())),
    {
        match self {
            LinkedList::List(pair) => {
                proof {
                    assert(forall|h: T| (#[trigger] seq![h] + pair.tail@) =~= (seq![pair.head]
                        + pair.tail@).update(0, h));
                }
                Some(&mut pair.head)
            },
            LinkedList::Empty => None,
        }
    }

    pub fn tail(&self) -> (r: Option<&LinkedList<T>>)
        ensures
            self@.len() == 0 ==> r is None,
            self@.len() > 0 ==> (r matches Some(rest) && rest@ == self@.skip(1)),
    {
        match self {
            LinkedList::List(pair) => {
                assert(pair.tail@ =~= self@.skip(1));
                Some(&*pair.tail)
            },
            LinkedList::Empty => None,
        }
    }

    pub fn tailmut(&mut self) -> (r: Option<&mut LinkedList<T>>)
        ensures
            old(self)@.len() == 0 ==> r is None && final(self)@ == old(self)@,
            old(self)@.len() > 0 ==> r is Some && r.unwrap()@ == old(self)@.skip(1) && final(self)@
                == seq![old(self)@[0]] + final(r.unwrap())@,
    {
        match self {
            LinkedList::List(pair) => {
                assert(pair.tail@ =~= old(self)@.skip(1));
                Some(&mut *pair.tail)
            },
            LinkedList::Empty => None,
        }
    }

    pub fn next(&self) -> (r: Option<(&T, &LinkedList<T>)>)
        ensures
            self@.len() == 0 ==> r is None,
            self@.len() > 0 ==> (r matches Some((x, rest)) && *x == self@[0] && rest@
                == self@.skip(1)),
    {
        match self {
            LinkedList::List(pair) => {
                assert(pair.tail@ =~= self@.skip(1));
                Some((&pair.head, &*pair.tail))
            },
            LinkedList::Empty => None,
        }
    }

    pub fn nextmut(&mut self) -> (r: Option<(&mut T, &mut LinkedList<T>)>)
        ensures
            old(self)@.len() == 0 ==> r is None && final(self)@ == old(self)@,
            old(self)@.len() > 0 ==> r is Some && *r.unwrap().0 == old(self)@[0]
                && r.unwrap().1@ == old(self)@.skip(1) && final(self)@ == seq![
                *final(r.unwrap().0),
            ] + final(r.unwrap().1)@,
    {
        match self {
            LinkedList::List(pair) => {
                assert(pair.tail@ =~= old(self)@.skip(1));
                Some((&mut pair.head, &mut *pair.tail))
            },
            LinkedList::Empty => None,
        }
    }

    /// The element at position `i`, if the list is that long.
    pub fn get(&self, i: usize) -> (r: Option<&T>)
        ensures
            i >= self@.len() ==> r is None,
            i < self@.len() ==> (r matches Some(x) && *x == self@[i as int]),
    {
        let mut cur: &LinkedList<T> = self;
        let mut ii: usize = 0;
        while ii < i
            invariant
                ii <= i,
                ii <= self@.len(),
                cur@ == self@.skip(ii as int),
            decreases i - ii,
        {
            match cur.tail() {
                Some(ncur) => {
                    assert(ncur@ =~= self@.skip(ii + 1));
                    cur = ncur;
                },
                None => {
                    return None;
                },
            }
            ii = ii + 1;
        }
        cur.head()
    }

    pub fn get_mut(&mut self, i: usize) -> (r: Option<&mut T>)
        ensures
            i >= old(self)@.len() ==> r is None && final(self)@ == old(self)@,
            i < old(self)@.len() ==> r is Some && *r.unwrap() == old(self)@[i as int]
                && final(self)@ == old(self)@.update(i as int, *final(r.unwrap())),
        decreases i,
    {
        match self {
            LinkedList::List(pair) => {
                if i == 0 {
                    proof {
                        assert(forall|h: T| (#[trigger] seq![h] + pair.tail@) =~= (seq![pair.head]
                            + pair.tail@).update(0, h));
                    }
                    Some(&mut pair.head)
                } else {
                    let ghost head = pair.head;
                    let ghost rest = pair.tail@;
                    proof {
                        assert(forall|k: int, h: T|
                            0 <= k < rest.len() ==> (seq![head] + #[trigger] rest.update(k, h))
                                =~= old(self)@.update(k + 1, h));
                    }
                    pair.tail.get_mut(i - 1)
                }
            },
            LinkedList::Empty => None,
        }
    }

    /// The number of elements.
    pub fn len(&self) -> (n: usize)
        requires
            self@.len() <= usize::MAX,
        ensures
            n == self@.len(),
    {
        let mut n: usize = 0;
        let mut cur: &LinkedList<T> = self;
        loop
            invariant
                self@.len() <= usize::MAX,
                n <= self@.len(),
                cur@ == self@.skip(n as int),
            ensures
                n == self@.len(),
            decreases self@.len() - n,
        {
            match cur.tail() {
                Some(rest) => {
                    assert(rest@ =~= self@.skip(n + 1));
                    cur = rest;
                    n = n + 1;
                },
                None => {
                    break ;
                },
            }
        }
        n
    }

    /// Takes out the first element that `predicate` accepts.
    pub fn remove_mut<P>(&mut self, predicate: P) -> (r: Option<T>) where P: Fn(&T) -> bool
        requires
            callable_on(old(self)@, predicate),
        ensures
            r is None ==> no_match(old(self)@, predicate) && final(self)@ == old(self)@,
            r is Some ==> exists|i: int| #[trigger]
                is_first_match(old(self)@, predicate, i) && r == Some(old(self)@[i]) && final(self)@
                    == old(self)@.remove(i),
        decreases old(self)@.len(),
    {
        match self {
            LinkedList::Empty => None,
            LinkedList::List(pair) => {
                assert(old(self)@[0] == pair.head);
                if predicate(&pair.head) {
                    assert(is_first_match(old(self)@, predicate, 0));
                    let r = self.popmut();
                    assert(self@ =~= old(self)@.remove(0));
                    r
                } else {
                    let ghost head = pair.head;
                    let ghost rest = pair.tail@;
                    assert(rest =~= old(self)@.skip(1));
                    assert(forall|j: int| 0 <= j < rest.len() ==> rest[j] == old(self)@[j + 1]);
                    let r = pair.tail.remove_mut(predicate);
                    proof {
                        if r is Some {
                            let i = choose|i: int| #[trigger]
                                is_first_match(rest, predicate, i) && r == Some(rest[i])
                                    && pair.tail@ == rest.remove(i);
                            assert(is_first_match(old(self)@, predicate, i + 1)) by {
                                assert forall|j: int| 0 <= j < i + 1 implies predicate.ensures(
                                    (&#[trigger] old(self)@[j],),
                                    false,
                                ) by {
                                    if j > 0 {
                                        assert(rest[j - 1] == old(self)@[j]);
                                    }
                                }
                            }
                            assert(seq![head] + rest.remove(i) =~= old(self)@.remove(i + 1));
                        } else {
                            assert forall|j: int| 0 <= j < old(self)@.len() implies predicate.ensures(
                                (&#[trigger] old(self)@[j],),
                                false,
                            ) by {
                                if j > 0 {
                                    assert(rest[j - 1] == old(self)@[j]);
                                }
                            }
                        }
                    }
                    r
                }
            },
        }
    }

    /// The position of the first element that `predicate` accepts.
    pub fn find_index<P>(&self, predicate: P) -> (r: Option<usize>) where P: Fn(&T) -> bool
        requires
            callable_on(self@, predicate),
            self@.len() <= usize::MAX,
        ensures
            r is None ==> no_match(self@, predicate),
            r matches Some(i) ==> is_first_match(self@, predicate, i as int),
    {
        let mut cur: &LinkedList<T> = self;
        let mut i: usize = 0;
        loop
            invariant
                callable_on(self@, predicate),
                self@.len() <= usize::MAX,
                i <= self@.len(),
                cur@ == self@.skip(i as int),
                forall|j: int| 0 <= j < i ==> predicate.ensures((&#[trigger] self@[j],), false),
            decreases self@.len() - i,
        {
            match cur.next() {
                Some((head, rest)) => {
                    assert(*head == self@[i as int]);
                    if predicate(head) {
                        return Some(i);
                    }
                    assert(rest@ =~= self@.skip(i + 1));
                    cur = rest;
                },
                None => {
                    return None;
                },
            }
            i = i + 1;
        }
    }

    /// The first element that `predicate` accepts, with its position.
    pub fn find_and_index<P>(&self, predicate: P) -> (r: Option<(usize, &T)>) where
        P: Fn(&T) -> bool,

        requires
            callable_on(self@, predicate),
            self@.len() <= usize::MAX,
        ensures
            r is None ==> no_match(self@, predicate),
            r matches Some((i, x)) ==> is_first_match(self@, predicate, i as int) && *x
                == self@[i as int],
    {
        let mut cur: &LinkedList<T> = self;
        let mut i: usize = 0;
        loop
            invariant
                callable_on(self@, predicate),
                self@.len() <= usize::MAX,
                i <= self@.len(),
                cur@ == self@.skip(i as int),
                forall|j: int| 0 <= j < i ==> predicate.ensures((&#[trigger] self@[j],), false),
            decreases self@.len() - i,
        {
            match cur.next() {
                Some((head, rest)) => {
                    assert(*head == self@[i as int]);
                    if predicate(head) {
                        return Some((i, head));
                    }
                    assert(rest@ =~= self@.skip(i + 1));
                    cur = rest;
                },
                None => {
                    return None;
                },
            }
            i = i + 1;
        }
    }

    /// The first element that `predicate` accepts.
    pub fn find<P>(&self, predicate: P) -> (r: Option<&T>) where P: Fn(&T) -> bool
        requires
            callable_on(self@, predicate),
        ensures
            r is None ==> no_match(self@, predicate),
            r matches Some(x) ==> exists|i: int| #[trigger]
                is_first_match(self@, predicate, i) && *x == self@[i],
    {
        let mut cur: &LinkedList<T> = self;
        let ghost mut i: int = 0;
        loop
            invariant
                callable_on(self@, predicate),
                0 <= i <= self@.len(),
                cur@ == self@.skip(i),
                forall|j: int| 0 <= j < i ==> predicate.ensures((&#[trigger] self@[j],), false),
            decreases self@.len() - i,
        {
            match cur.next() {
                Some((head, rest)) => {
                    assert(*head == self@[i]);
                    if predicate(head) {
                        assert(is_first_match(self@, predicate, i));
                        return Some(head);
                    }
                    assert(rest@ =~= self@.skip(i + 1));
                    cur = rest;
                },
                None => {
                    return None;
                },
            }
            proof {
                i = i + 1;
            }
        }
    }

    /// The first element that `predicate` accepts, for changing it in place.
    pub fn find_mut<P>(&mut self, predicate: P) -> (r: Option<&mut T>) where P: Fn(&T) -> bool
        requires
            callable_on(old(self)@, predicate),
        ensures
            r is None ==> no_match(old(self)@, predicate) && final(self)@ == old(self)@,
            r is Some ==> exists|i: int| #[trigger]
                is_first_match(old(self)@, predicate, i) && *r.unwrap() == old(self)@[i]
                    && final(self)@ == old(self)@.update(i, *final(r.unwrap())),
        decreases old(self)@.len(),
    {
        match self {
            LinkedList::Empty => None,
            LinkedList::List(pair) => {
                assert(old(self)@[0] == pair.head);
                if predicate(&pair.head) {
                    proof {
                        assert(is_first_match(old(self)@, predicate, 0));
                        assert(forall|h: T| (#[trigger] seq![h] + pair.tail@) =~= (seq![pair.head]
                            + pair.tail@).update(0, h));
                    }
                    Some(&mut pair.head)
                } else {
                    let ghost head = pair.head;
                    let ghost rest = pair.tail@;
                    proof {
                        assert(rest =~= old(self)@.skip(1));
                        assert(forall|j: int|
                            0 <= j < rest.len() ==> rest[j] == old(self)@[j + 1]);
                        assert forall|i: int| #[trigger]
                            is_first_match(rest, predicate, i) implies is_first_match(
                            old(self)@,
                            predicate,
                            i + 1,
                        ) by {
                            assert forall|j: int| 0 <= j < i + 1 implies predicate.ensures(
                                (&#[trigger] old(self)@[j],),
                                false,
                            ) by {
                                if j > 0 {
                                    assert(rest[j - 1] == old(self)@[j]);
                                }
                            }
                        }
                        assert(no_match(rest, predicate) ==> no_match(old(self)@, predicate)) by {
                            if no_match(rest, predicate) {
                                assert forall|j: int|
                                    0 <= j < old(self)@.len() implies predicate.ensures(
                                    (&#[trigger] old(self)@[j],),
                                    false,
                                ) by {
                                    if j > 0 {
                                        assert(rest[j - 1] == old(self)@[j]);
                                    }
                                }
                            }
                        }
                        assert(forall|i: int, h: T|
                            0 <= i < rest.len() ==> (seq![head] + #[trigger] rest.update(i, h))
                                =~= old(self)@.update(i + 1, h));
                    }
                    pair.tail.find_mut(predicate)
                }
            },
        }
    }
}

/// A walk along a list. Its view is what is left of the list.
pub struct LinkedIter<'a, T> {
    current: &'a LinkedList<T>,
}

impl<'a, T> LinkedIter<'a, T> {
    pub closed spec fn view(&self) -> Seq<T> {
        self.current@
    }

    /// Hands out the next element, if any is left.
    pub fn next(&mut self) -> (r: Option<&'a T>)
        ensures
            old(self)@.len() == 0 ==> r is None && final(self)@ == old(self)@,
            old(self)@.len() > 0 ==> (r matches Some(x) && *x == old(self)@[0]) && final(self)@
                == old(self)@.skip(1),
    {
        match self.current.next() {
            Some((head, tail)) => {
                self.current = tail;
                Some(head)
            },
            None => None,
        }
    }
}

impl<T> LinkedList<T> {
    /// A walk along the list from its head.
    pub fn into_iter<'a>(&'a self) -> (r: LinkedIter<'a, T>)
        ensures
            r@ == self@,
    {
        LinkedIter { current: self }
    }
}

} // verus!
