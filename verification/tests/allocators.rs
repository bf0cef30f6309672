use corerust::crust::capalloc::{
    allocate_cap_slot, allocate_cap_slots, free_cap_slot, free_cap_slots, init_cslots,
    merge_caprange, SlotAllocator,
};
use corerust::crust::vspace::{
    allocate_vregion, free_vregion, init_vspace, kernel_base_vaddr, RegionAllocator, VRegion,
};
use corerust::kobject::{CapRange, CapSet, CapSlot, CapSlotSet};
use corerust::mantle::concurrency::SingleThreaded;
use corerust::mantle::kernel::KError;
use corerust::memory::linkedlist::LinkedList;

fn ranges(a: &SlotAllocator) -> Vec<(usize, usize)> {
    let mut out = Vec::new();
    let mut i = 0;
    while let Some(r) = a.range_at(i) {
        out.push(r);
        i += 1;
    }
    out
}

fn regions(a: &RegionAllocator) -> Vec<(usize, usize)> {
    let mut out = Vec::new();
    let mut i = 0;
    while let Some(r) = a.region_at(i) {
        out.push(r);
        i += 1;
    }
    out
}

fn seeded(start: usize, end: usize) -> SlotAllocator {
    let mut a = SlotAllocator::new();
    init_cslots(&mut a, CapRange::range(start, end));
    a
}

fn list_of(items: &[u32]) -> LinkedList<u32> {
    LinkedList::collect(items.to_vec()).unwrap()
}

fn items(list: &LinkedList<u32>) -> Vec<u32> {
    let mut out = Vec::new();
    let mut i = 0;
    while let Some(x) = list.get(i) {
        out.push(*x);
        i += 1;
    }
    out
}

#[test]
fn slot_allocate_takes_head_of_first_range() {
    let mut a = seeded(12, 20);
    let s = allocate_cap_slot(&mut a).unwrap();
    assert_eq!(s.peek_index(), 12);
    assert_eq!(ranges(&a), vec![(13, 20)]);
    let _ = s.deconstruct();
}

#[test]
fn slot_allocate_free_pairs_restore_single_range() {
    let mut a = seeded(12, 262144);
    for _ in 0..50 {
        let s = allocate_cap_slot(&mut a).unwrap();
        assert_eq!(s.peek_index(), 12);
        free_cap_slot(&mut a, s);
        assert_eq!(ranges(&a), vec![(12, 262144)]);
    }
    let set = allocate_cap_slots(&mut a, 256).unwrap();
    assert_eq!((set.start(), set.capacity(), set.full()), (12, 256, true));
    free_cap_slots(&mut a, set);
    assert_eq!(ranges(&a), vec![(12, 262144)]);
}

#[test]
fn slot_nested_pairs_restore_single_range() {
    let mut a = seeded(100, 105);
    let mut held = Vec::new();
    for _ in 0..5 {
        held.push(allocate_cap_slot(&mut a).unwrap());
    }
    assert_eq!(ranges(&a), Vec::<(usize, usize)>::new());
    while let Some(s) = held.pop() {
        free_cap_slot(&mut a, s);
    }
    assert_eq!(ranges(&a), vec![(100, 105)]);
}

#[test]
fn slot_last_slot_of_range_pops_the_range() {
    let mut a = seeded(7, 8);
    let s = allocate_cap_slot(&mut a).unwrap();
    assert_eq!(s.peek_index(), 7);
    assert_eq!(a.range_count(), 0);
    assert_eq!(allocate_cap_slot(&mut a).err(), Some(KError::NotEnoughMemory));
    let _ = s.deconstruct();
}

#[test]
fn slot_exhaustion_then_free_then_same_index() {
    let mut a = seeded(3, 6);
    let mut held = Vec::new();
    loop {
        match allocate_cap_slot(&mut a) {
            Ok(s) => held.push(s),
            Err(e) => {
                assert_eq!(e, KError::NotEnoughMemory);
                break;
            }
        }
    }
    assert_eq!(held.len(), 3);
    let last = held.pop().unwrap();
    let index = last.peek_index();
    free_cap_slot(&mut a, last);
    let again = allocate_cap_slot(&mut a).unwrap();
    assert_eq!(again.peek_index(), index);
    let _ = again.deconstruct();
    for s in held {
        let _ = s.deconstruct();
    }
}

#[test]
fn slot_first_fit_skips_short_ranges() {
    let mut a = SlotAllocator::new();
    merge_caprange(&mut a, CapRange::range(10, 12));
    merge_caprange(&mut a, CapRange::range(20, 30));
    merge_caprange(&mut a, CapRange::range(40, 44));
    assert_eq!(ranges(&a), vec![(10, 12), (20, 30), (40, 44)]);
    let set = allocate_cap_slots(&mut a, 4).unwrap();
    assert_eq!((set.start(), set.capacity(), set.count()), (20, 4, 4));
    assert_eq!(ranges(&a), vec![(10, 12), (24, 30), (40, 44)]);
    let all = allocate_cap_slots(&mut a, 6).unwrap();
    assert_eq!(all.start(), 24);
    assert_eq!(ranges(&a), vec![(10, 12), (40, 44)]);
    assert!(matches!(allocate_cap_slots(&mut a, 5), Err(KError::NotEnoughMemory)));
    assert_eq!(ranges(&a), vec![(10, 12), (40, 44)]);
    free_cap_slots(&mut a, set);
    free_cap_slots(&mut a, all);
    assert_eq!(ranges(&a), vec![(10, 12), (40, 44), (20, 30)]);
}

#[test]
fn merge_joins_both_neighbours_when_adjacent_in_list() {
    let mut a = SlotAllocator::new();
    merge_caprange(&mut a, CapRange::range(0, 4));
    merge_caprange(&mut a, CapRange::range(8, 12));
    merge_caprange(&mut a, CapRange::range(4, 8));
    assert_eq!(ranges(&a), vec![(0, 12)]);
}

#[test]
fn merge_joins_at_the_front_of_a_range() {
    let mut a = SlotAllocator::new();
    merge_caprange(&mut a, CapRange::range(8, 12));
    merge_caprange(&mut a, CapRange::range(6, 8));
    assert_eq!(ranges(&a), vec![(6, 12)]);
    merge_caprange(&mut a, CapRange::range(20, 21));
    assert_eq!(ranges(&a), vec![(6, 12), (20, 21)]);
}

fn free_in_order(order: &[usize]) -> Vec<(usize, usize)> {
    let mut a = SlotAllocator::new();
    for &i in order {
        free_cap_slot(&mut a, CapSlot::from_index(i));
    }
    ranges(&a)
}

#[test]
fn freeing_every_slot_one_by_one_gives_one_range() {
    assert_eq!(free_in_order(&[0, 1, 2, 3, 4, 5, 6, 7]), vec![(0, 8)]);
    assert_eq!(free_in_order(&[7, 6, 5, 4, 3, 2, 1, 0]), vec![(0, 8)]);
    assert_eq!(free_in_order(&[3, 4, 2, 5, 1, 6, 0, 7]), vec![(0, 8)]);
    assert_eq!(free_in_order(&[0, 2, 1]), vec![(0, 3)]);
    assert_eq!(free_in_order(&[2, 0, 1]), vec![(0, 3)]);
}

#[test]
fn freeing_in_any_order_keeps_every_slot_once() {
    let orders: [[usize; 5]; 4] = [[0, 4, 2, 1, 3], [4, 0, 2, 3, 1], [2, 0, 4, 1, 3], [1, 3, 0, 4, 2]];
    for order in orders.iter() {
        let got = free_in_order(order);
        let mut covered = Vec::new();
        for (s, e) in got.iter() {
            assert!(s < e);
            for x in *s..*e {
                assert!(!covered.contains(&x));
                covered.push(x);
            }
        }
        covered.sort();
        assert_eq!(covered, vec![0, 1, 2, 3, 4]);
    }
    // joined to the first range that touches, and that one only to its successor
    assert_eq!(free_in_order(&[0, 4, 2, 1, 3]), vec![(0, 2), (2, 5)]);
}

#[test]
fn caprange_basics() {
    let r = CapRange::range(5, 9);
    assert_eq!((r.start(), r.len(), r.is_empty()), (5, 4, false));
    assert_eq!(r.nth(3).deconstruct(), 8);
    assert!(CapRange::range(4, 4).is_empty());
    let s = CapRange::single(17);
    assert_eq!((s.start(), s.len()), (17, 1));
    assert!(r.is_after(&CapRange::range(5, 6)));
    assert!(!r.is_after(&CapRange::range(6, 7)));
}

#[test]
fn caprange_chop() {
    let mut r = CapRange::range(5, 7);
    assert_eq!(r.chop_1(), Some(5));
    assert_eq!(r.chop_1(), Some(6));
    assert_eq!(r.chop_1(), None);
    assert_eq!((r.start(), r.len()), (7, 0));
    let mut r = CapRange::range(10, 20);
    assert!(r.chop_n(11).is_none());
    let front = r.chop_n(4).unwrap();
    assert_eq!((front.start(), front.len()), (10, 4));
    assert_eq!((r.start(), r.len()), (14, 6));
    let rest = r.chop_n(6).unwrap();
    assert_eq!((rest.start(), rest.len()), (14, 6));
    assert!(r.is_empty());
}

#[test]
fn caprange_intersection_and_join() {
    let a = CapRange::range(0, 10);
    let b = CapRange::range(5, 15);
    let i = a.intersection(&b).unwrap();
    assert_eq!((i.start(), i.len()), (5, 5));
    let i = b.intersection(&a).unwrap();
    assert_eq!((i.start(), i.len()), (5, 5));
    assert!(a.intersection(&CapRange::range(10, 12)).is_none());
    assert!(CapRange::range(10, 12).intersection(&a).is_none());
    assert!(a.could_join(&CapRange::range(10, 12)));
    assert!(CapRange::range(10, 12).could_join(&a));
    assert!(!a.could_join(&CapRange::range(11, 12)));
    let j = a.join(CapRange::range(10, 12)).ok().unwrap();
    assert_eq!((j.start(), j.len()), (0, 12));
    let j = CapRange::range(10, 12).join(CapRange::range(0, 10)).ok().unwrap();
    assert_eq!((j.start(), j.len()), (0, 12));
    let (x, y) = CapRange::range(0, 3).join(CapRange::range(4, 6)).err().unwrap();
    assert_eq!((x.start(), x.len(), y.start(), y.len()), (0, 3, 4, 2));
    let mut m = CapRange::range(4, 6);
    assert!(m.join_mut(CapRange::range(2, 4)).is_none());
    assert_eq!((m.start(), m.len()), (2, 4));
    assert!(m.join_mut(CapRange::range(6, 9)).is_none());
    assert_eq!((m.start(), m.len()), (2, 7));
    let back = m.join_mut(CapRange::range(20, 21)).unwrap();
    assert_eq!((back.start(), m.start(), m.len()), (20, 2, 7));
}

#[test]
fn slot_set_take_and_readd() {
    let mut set: CapSlotSet = CapRange::range(30, 34).to_set_asserted_full();
    assert_eq!((set.start(), set.capacity(), set.count(), set.full(), set.remaining()), (30, 4, 4, true, true));
    let a = set.take_front().unwrap();
    let d = set.take_back().unwrap();
    assert_eq!((a.peek_index(), d.peek_index(), set.count(), set.full()), (30, 33, 2, false));
    let b = set.take_front().unwrap();
    let c = set.take_front().unwrap();
    assert_eq!((b.peek_index(), c.peek_index()), (31, 32));
    assert!(set.take_front().is_none());
    assert!(set.take_back().is_none());
    assert!(!set.remaining());
    // any slot of the range while the set is vacant, then only neighbours
    set.readd(c);
    assert_eq!(set.count(), 1);
    set.readd(d);
    set.readd(b);
    set.readd(a);
    assert!(set.full());
    let r = set.deconstruct();
    assert_eq!((r.start(), r.len()), (30, 4));
}

#[test]
fn slot_set_derived_sets() {
    let empty = CapRange::range(8, 10).to_set_empty();
    assert_eq!((empty.count(), empty.capacity(), empty.remaining()), (0, 2, false));
    let mut slots = CapSlotSet::empty_range(8, 10);
    slots.assert_full();
    assert!(slots.full());
    let mut caps: CapSet = slots.assert_derive_capset();
    assert!(!slots.remaining());
    assert_eq!((caps.start(), caps.capacity(), caps.count(), caps.full()), (8, 2, 2, true));
    let first = caps.take_front().unwrap();
    assert_eq!(first.peek_index(), 8);
    assert_eq!(first.peek_slot().peek_index(), 8);
    let last = caps.take_back().unwrap();
    assert_eq!(last.peek_index(), 9);
    assert!(!caps.remaining());
    caps.readd(last);
    caps.readd(first);
    assert!(caps.full());
    let r = caps.equivalent_range();
    assert_eq!((r.start(), r.len()), (8, 2));
    assert_eq!(caps.equivalent_empty_slotset().count(), 0);
    assert_eq!(caps.equivalent_empty_set().count(), 0);
    assert_eq!(slots.equivalent_empty_slotset().capacity(), 2);
    caps.assert_empty();
    assert_eq!(caps.count(), 0);
    caps.assert_full();
    assert_eq!(caps.count(), 2);
    slots.assert_empty();
    assert_eq!(slots.equivalent_range().len(), 2);
}

#[test]
fn slot_becomes_singleton_set() {
    let slot = CapSlot::from_index(41);
    let r = slot.to_range();
    assert_eq!((r.start(), r.len()), (41, 1));
    let mut set = slot.become_set();
    assert_eq!((set.start(), set.capacity(), set.count()), (41, 1, 1));
    assert_eq!(set.take_front().unwrap().deconstruct(), 41);
    let cap = CapSlot::from_index(9).assert_populated();
    assert_eq!(cap.peek_index(), 9);
    assert_eq!(cap.assert_unpopulated().deconstruct(), 9);
}

#[test]
fn vregion_allocate_and_free() {
    let mut va = RegionAllocator::new();
    free_vregion(&mut va, VRegion::new(0x10000, 0x20000));
    let r = allocate_vregion(&mut va, 0x1000).unwrap();
    assert_eq!((r.start(), r.len(), r.to_4k_address()), (0x10000, 0x1000, 0x10000));
    assert_eq!(regions(&va), vec![(0x11000, 0x20000)]);
    let big = allocate_vregion(&mut va, 0xf000).unwrap();
    assert_eq!((big.start(), big.len()), (0x11000, 0xf000));
    assert_eq!(regions(&va), Vec::<(usize, usize)>::new());
    assert!(matches!(allocate_vregion(&mut va, 0x1000), Err(KError::NotEnoughMemory)));
    free_vregion(&mut va, big);
    free_vregion(&mut va, r);
    assert_eq!(regions(&va), vec![(0x10000, 0x20000)]);
}

#[test]
fn vregion_first_fit_and_coalescing() {
    let mut va = RegionAllocator::new();
    free_vregion(&mut va, VRegion::new(0x1000, 0x3000));
    free_vregion(&mut va, VRegion::new(0x10000, 0x20000));
    let r = allocate_vregion(&mut va, 0x4000).unwrap();
    assert_eq!(r.start(), 0x10000);
    assert_eq!(regions(&va), vec![(0x1000, 0x3000), (0x14000, 0x20000)]);
    free_vregion(&mut va, VRegion::new(0x3000, 0x10000));
    assert_eq!(regions(&va), vec![(0x1000, 0x10000), (0x14000, 0x20000)]);
    free_vregion(&mut va, r);
    assert_eq!(regions(&va), vec![(0x1000, 0x20000)]);
}

#[test]
fn vregion_methods() {
    let a = VRegion::new(0x1000, 0x3000);
    let b = VRegion::new(0x2000, 0x5000);
    assert_eq!((a.len(), a.is_empty()), (0x2000, false));
    let i = a.intersection(&b).unwrap();
    assert_eq!((i.start(), i.len()), (0x2000, 0x1000));
    assert!(a.intersection(&VRegion::new(0x3000, 0x4000)).is_none());
    assert!(a.could_join(&VRegion::new(0x3000, 0x4000)));
    assert!(!a.could_join(&VRegion::new(0x4000, 0x5000)));
    let mut c = VRegion::new(0x4000, 0x8000);
    let front = c.chop_len(0x1000);
    assert_eq!((front.start(), front.len(), c.start(), c.len()), (0x4000, 0x1000, 0x5000, 0x3000));
    assert!(c.join(front).is_none());
    assert_eq!((c.start(), c.len()), (0x4000, 0x4000));
    let back = c.join(VRegion::new(0x10000, 0x11000)).unwrap();
    assert_eq!(back.start(), 0x10000);
}

#[test]
fn vspace_starts_eight_pages_above_the_image() {
    let mut va = RegionAllocator::new();
    init_vspace(&mut va, 0x40_0000, 0x5000);
    assert_eq!(regions(&va), vec![(0x40_d000, kernel_base_vaddr())]);
    assert_eq!(kernel_base_vaddr(), usize::MAX - 0x7fff_ffff);
}

#[test]
fn list_push_pop_head_tail() {
    let mut l: LinkedList<u32> = LinkedList::empty();
    assert!(l.is_empty());
    assert_eq!((l.len(), l.head()), (0, None));
    assert_eq!(l.popmut(), None);
    assert!(l.tail().is_none() && l.next().is_none() && l.get(0).is_none());
    assert!(l.pushmut(3).is_ok());
    assert!(l.pushmut(2).is_ok());
    let l = l.push(1).ok().unwrap();
    assert_eq!(items(&l), vec![1, 2, 3]);
    assert_eq!((l.len(), l.is_empty()), (3, false));
    assert_eq!(l.head(), Some(&1));
    assert_eq!(items(l.tail().unwrap()), vec![2, 3]);
    let (h, t) = l.next().unwrap();
    assert_eq!((*h, items(t)), (1, vec![2, 3]));
    assert_eq!((l.get(2), l.get(3)), (Some(&3), None));
    let (first, rest) = l.pop().unwrap();
    assert_eq!((first, items(&rest)), (1, vec![2, 3]));
    let mut rest = rest;
    assert_eq!(rest.popmut(), Some(2));
    assert_eq!(items(&rest), vec![3]);
    assert!(LinkedList::<u32>::empty().pop().is_none());
}

#[test]
fn list_collect_keeps_order() {
    assert_eq!(items(&list_of(&[5, 6, 7, 8])), vec![5, 6, 7, 8]);
    assert!(list_of(&[]).is_empty());
}

#[test]
fn list_mutable_access() {
    let mut l = list_of(&[1, 2, 3]);
    *l.headmut().unwrap() = 10;
    *l.get_mut(2).unwrap() = 30;
    assert!(l.get_mut(3).is_none());
    assert_eq!(items(&l), vec![10, 2, 30]);
    l.tailmut().unwrap().pushmut(7).ok().unwrap();
    assert_eq!(items(&l), vec![10, 7, 2, 30]);
    {
        let (h, t) = l.nextmut().unwrap();
        *h += 1;
        assert_eq!(t.popmut(), Some(7));
    }
    assert_eq!(items(&l), vec![11, 2, 30]);
    let mut e: LinkedList<u32> = LinkedList::empty();
    assert!(e.headmut().is_none() && e.tailmut().is_none() && e.nextmut().is_none());
}

#[test]
fn list_find_and_remove_first_match() {
    let mut l = list_of(&[4, 9, 6, 9, 2]);
    assert_eq!(l.find(|x| *x > 5), Some(&9));
    assert_eq!(l.find(|x| *x > 50), None);
    assert_eq!(l.find_index(|x| *x == 6), Some(2));
    assert_eq!(l.find_index(|x| *x == 7), None);
    assert_eq!(l.find_and_index(|x| *x == 9), Some((1, &9)));
    assert_eq!(l.find_and_index(|x| *x == 0), None);
    *l.find_mut(|x| *x == 9).unwrap() = 1;
    assert_eq!(items(&l), vec![4, 1, 6, 9, 2]);
    assert!(l.find_mut(|x| *x == 100).is_none());
    assert_eq!(l.remove_mut(|x| *x > 5), Some(6));
    assert_eq!(items(&l), vec![4, 1, 9, 2]);
    assert_eq!(l.remove_mut(|x| *x > 50), None);
    assert_eq!(l.remove_mut(|x| *x == 4), Some(4));
    assert_eq!(l.remove_mut(|x| *x == 2), Some(2));
    assert_eq!(items(&l), vec![1, 9]);
}

#[test]
fn single_threaded_cell() {
    let mut c = SingleThreaded(5u32);
    assert_eq!(*c.get(), 5);
    *c.get_mut() = 6;
    assert_eq!(c.take(), 6);
}

#[test]
fn list_walk() {
    let l = list_of(&[3, 1, 4]);
    let mut walk = l.into_iter();
    assert_eq!((walk.next(), walk.next(), walk.next(), walk.next()), (Some(&3), Some(&1), Some(&4), None));
    let e = list_of(&[]);
    assert_eq!(e.into_iter().next(), None);
}
