use corerust::crust::capalloc::{
    allocate_cap_slot, allocate_cap_slots, free_cap_slot, init_cslots, SlotAllocator,
};
use corerust::crust::device;
use corerust::crust::device::{DeviceBlock, Devices, Subblock};
use corerust::crust::start::{print_bootinfo, set_bootinfo};
use corerust::mantle::debug::{put_decimal, put_signed, put_str};
use corerust::crust::vspace::{free_vregion, kernel_base_vaddr, RegionAllocator, VRegion};
use corerust::crust::{ROOT_BITS, ROOT_PAGEDIR, ROOT_SLOT};
use corerust::kobject::page4k::{map_page_table, page_table_base};
use corerust::kobject::{CapRange, CapSlot, IRQControl, PageTables, Untyped};
use corerust::mantle::calls;
use corerust::mantle::kernel;
use corerust::mantle::kernel::{BootInfo, KError, ObjectType, SlotRegion, UntypedDesc};
use corerust::mantle::kio;
use corerust::mantle::kio::{Syscalls, Machine};
use corerust::memory::smalluntyped::{
    allocate_notification, allocate_untyped_16b, free_notification, free_untyped_16b,
    FragmentAllocator,
};
use corerust::memory::untyped;
use corerust::memory::untyped::{
    allocate_page4k, allocate_untyped_4k, free_page4k, free_untyped_4k, UntypedAllocator,
};

/// One system call that the library made.
#[derive(Debug, Clone, PartialEq)]
struct Call {
    syscall: isize,
    dest: usize,
    label: u32,
    length: u32,
    mrs: [usize; 6],
    cap0: usize,
}

/// A kernel that answers as scripted and keeps what it was asked.
struct Mock {
    caps: [usize; 3],
    mrs: [usize; 120],
    calls: Vec<Call>,
    /// replies by label, used first to last; where none is left the kernel agrees
    script: Vec<(u32, u32)>,
    /// the words that waiting on a notification delivers, first to last
    words: Vec<usize>,
    /// the bytes that reading an I/O port delivers, first to last
    port_reads: Vec<u8>,
    port_writes: Vec<(u16, u8)>,
    faults: Vec<KError>,
}

impl Mock {
    fn new() -> Mock {
        Mock {
            caps: [0; 3],
            mrs: [0; 120],
            calls: Vec::new(),
            script: Vec::new(),
            words: Vec::new(),
            port_reads: Vec::new(),
            port_writes: Vec::new(),
            faults: Vec::new(),
        }
    }

    fn refuse(&mut self, label: u32, err: KError) {
        self.script.push((label, err.code()));
    }

    fn labels(&self) -> Vec<u32> {
        self.calls.iter().map(|c| c.label).collect()
    }

    fn count(&self, label: u32) -> usize {
        self.calls.iter().filter(|c| c.label == label).count()
    }
}

impl Syscalls for Mock {
    fn set_cap(&mut self, i: u32, cptr: usize) {
        self.caps[i as usize] = cptr;
    }

    fn set_mr(&mut self, i: u32, mr: usize) {
        self.mrs[i as usize] = mr;
    }

    fn get_mr(&mut self, i: u32) -> usize {
        self.mrs[i as usize]
    }

    fn sys_send(&mut self, syscall: isize, dest: usize, info: usize, mr0: usize, mr1: usize, mr2: usize, mr3: usize) {
        self.calls.push(Call {
            syscall,
            dest,
            label: (info >> 12) as u32,
            length: (info & 0x7f) as u32,
            mrs: [mr0, mr1, mr2, mr3, 0, 0],
            cap0: self.caps[0],
        });
    }

    fn sys_reply(&mut self, syscall: isize, info: usize, mr0: usize, mr1: usize, mr2: usize, mr3: usize) {
        self.sys_send(syscall, 0, info, mr0, mr1, mr2, mr3);
    }

    fn sys_send_null(&mut self, syscall: isize, dest: usize, info: usize) {
        self.sys_send(syscall, dest, info, 0, 0, 0, 0);
    }

    fn sys_recv(&mut self, syscall: isize, src: usize) -> (usize, usize, usize, usize, usize, usize) {
        self.sys_send(syscall, src, 0, 0, 0, 0, 0);
        let word = if self.words.is_empty() { 0 } else { self.words.remove(0) };
        (word, 0, 0, 0, 0, 0)
    }

    fn sys_send_recv(
        &mut self,
        syscall: isize,
        dest: usize,
        info: usize,
        mr0: usize,
        mr1: usize,
        mr2: usize,
        mr3: usize,
    ) -> (usize, usize, usize, usize, usize, usize) {
        let label = (info >> 12) as u32;
        self.calls.push(Call {
            syscall,
            dest,
            label,
            length: (info & 0x7f) as u32,
            mrs: [mr0, mr1, mr2, mr3, self.mrs[4], self.mrs[5]],
            cap0: self.caps[0],
        });
        let mut code = 0;
        if let Some(at) = self.script.iter().position(|s| s.0 == label) {
            code = self.script.remove(at).1;
        }
        let mut out0 = 0;
        if label == kernel::TAG_X86_IOPORT_IN8 {
            out0 = if self.port_reads.is_empty() { 0 } else { self.port_reads.remove(0) as usize };
        }
        if label == kernel::TAG_X86_IOPORT_OUT8 {
            self.port_writes.push((mr0 as u16, mr1 as u8));
        }
        (0, (code as usize) << 12, out0, 0, 0, 0)
    }

    fn sys_null(&mut self, syscall: isize) {
        self.sys_send(syscall, 0, 0, 0, 0, 0, 0);
    }

    fn fault(&mut self, err: KError) {
        self.faults.push(err);
    }
}

fn ranges(a: &SlotAllocator) -> Vec<(usize, usize)> {
    let mut out = Vec::new();
    let mut i = 0;
    while let Some(r) = a.range_at(i) {
        out.push(r);
        i += 1;
    }
    out
}

fn regions(a: &RegionAllocator) -> Vec<(usize, usize)> {
    let mut out = Vec::new();
    let mut i = 0;
    while let Some(r) = a.region_at(i) {
        out.push(r);
        i += 1;
    }
    out
}

fn free_slot_count(a: &SlotAllocator) -> usize {
    ranges(a).iter().map(|r| r.1 - r.0).sum()
}

fn seeded(start: usize, end: usize) -> SlotAllocator {
    let mut a = SlotAllocator::new();
    init_cslots(&mut a, CapRange::range(start, end));
    a
}

fn untyped_at(slot: usize, bits: u8) -> Untyped {
    Untyped::from_cap(CapSlot::from_index(slot).assert_populated(), bits)
}

fn blocks(d: &DeviceBlock) -> Vec<(usize, u8, bool)> {
    let mut out = Vec::new();
    let mut i = 0;
    while let Some(b) = d.block_at(i) {
        out.push(b);
        i += 1;
    }
    out
}

fn no_untypeds() -> [UntypedDesc; 230] {
    [UntypedDesc { paddr: 0, padding1: 0, padding2: 0, size_bits: 0, is_device: 0 }; 230]
}

fn pool_of_pages(first_slot: usize, count: usize) -> UntypedAllocator {
    let mut a = UntypedAllocator::new();
    for i in (0..count).rev() {
        a.add_small_page(untyped_at(first_slot + i, 12));
    }
    a
}

#[test]
fn retype_invocation_is_laid_out_for_the_kernel() {
    let mut k = Machine::new(Mock::new());
    let err = calls::untyped_retype(&mut k, 50, 7, 12, 2, 0, 0, 300, 4);
    assert_eq!(err, KError::NoError);
    assert_eq!(
        k.inner().calls,
        vec![Call {
            syscall: kernel::SYS_CALL,
            dest: 50,
            label: kernel::TAG_UNTYPED_RETYPE,
            length: 6,
            mrs: [7, 12, 0, 0, 300, 4],
            cap0: 2,
        }]
    );
}

#[test]
fn invocations_carry_their_labels() {
    let mut k = Machine::new(Mock::new());
    calls::cnode_delete(&mut k, 2, 77, 64);
    calls::x86_page_map(&mut k, 9, 3, 0x5000, 3, 0);
    calls::x86_page_unmap(&mut k, 9);
    calls::x86_page_table_map(&mut k, 10, 3, 0x20_0000, 0);
    calls::x86_page_table_unmap(&mut k, 10);
    calls::x86_ioport_out8(&mut k, 7, 0x3f8, 65);
    calls::x86_ioport_in8(&mut k, 7, 0x3f8);
    calls::irqcontrol_get(&mut k, 4, 1, 2, 40, 64);
    calls::irqhandler_ack(&mut k, 40);
    calls::irqhandler_set_notification(&mut k, 40, 41);
    calls::irqhandler_clear(&mut k, 40);
    assert_eq!(k.inner().labels(), vec![15, 37, 39, 33, 34, 47, 44, 23, 24, 25, 26]);
    assert_eq!((k.inner().calls[0].dest, k.inner().calls[0].mrs[0], k.inner().calls[0].mrs[1]), (2, 77, 64));
    assert_eq!((k.inner().calls[1].cap0, k.inner().calls[1].mrs[0], k.inner().calls[1].mrs[1], k.inner().calls[1].length), (3, 0x5000, 3, 3));
    assert_eq!((k.inner().calls[3].cap0, k.inner().calls[3].mrs[0]), (3, 0x20_0000));
    assert_eq!((k.inner().calls[5].mrs[0], k.inner().calls[5].mrs[1]), (0x3f8, 65));
    assert_eq!((k.inner().calls[7].cap0, k.inner().calls[7].mrs[0], k.inner().calls[7].mrs[1], k.inner().calls[7].mrs[2]), (2, 1, 40, 64));
    assert_eq!(k.inner().calls[9].cap0, 41);
    assert!(k.inner().calls.iter().all(|c| c.syscall == -1));
}

#[test]
fn kernel_replies_are_decoded() {
    let mut k = Machine::new(Mock::new());
    k.inner_mut().refuse(kernel::TAG_CNODE_DELETE, KError::RevokeFirst);
    assert_eq!(calls::cnode_delete(&mut k, 2, 1, 64), KError::RevokeFirst);
    assert_eq!(calls::cnode_delete(&mut k, 2, 1, 64), KError::NoError);
    assert_eq!(calls::handle_err(((6u32) << 12, 0, 0, 0, 0), false), KError::FailedLookup);
    assert_eq!(calls::handle_err(((200u32) << 12 | 5, 0, 0, 0, 0), true), KError::UnknownError);
    k.inner_mut().port_reads.push(0xAB);
    assert_eq!(calls::x86_ioport_in8(&mut k, 7, 0x60), (KError::NoError, 0xAB));
    assert_eq!(calls::byte_of_word(0x1234), 0x34);
}

#[test]
fn buffer_operations_use_their_system_calls() {
    let mut k = Machine::new(Mock::new());
    kio::set_mr(&mut k, 0, 11);
    kio::set_mr(&mut k, 3, 14);
    assert_eq!(kio::get_mr(&mut k, 3), 14);
    kio::set_cap(&mut k, 2, 99);
    assert_eq!(k.inner().caps[2], 99);
    kio::send(&mut k, 5, 0x1000);
    kio::nbsend(&mut k, 5, 0x1000);
    kio::reply(&mut k, 0x2000);
    kio::signal(&mut k, 6);
    kio::yield_(&mut k);
    kio::debug_put_char(&mut k, b'x');
    k.inner_mut().words = vec![0b101, 0b10];
    assert_eq!(kio::wait(&mut k, 6), 0b101);
    assert_eq!(kio::poll(&mut k, 6), 0b10);
    kio::call(&mut k, 8, 0x3000);
    kio::reply_recv(&mut k, 8, 0);
    kio::send_with_mrs(&mut k, 1, 0, 1, 2, 3, 4);
    kio::nbsend_with_mrs(&mut k, 1, 0, 1, 2, 3, 4);
    kio::reply_with_mrs(&mut k, 0, 1, 2, 3, 4);
    kio::recv_with_mrs(&mut k, 1);
    kio::reply_recv_with_mrs(&mut k, 1, 0, 1, 2, 3, 4);
    kio::call_with_mrs(&mut k, 1, 0, 1, 2, 3, 4);
    kio::recv(&mut k, 1);
    kio::nbrecv(&mut k, 1);
    let syscalls: Vec<isize> = k.inner().calls.iter().map(|c| c.syscall).collect();
    assert_eq!(syscalls, vec![-3, -4, -6, -3, -7, -9, -5, -8, -1, -2, -3, -4, -6, -5, -2, -1, -5, -8]);
    assert_eq!((k.inner().calls[0].mrs[0], k.inner().calls[0].mrs[3], k.inner().calls[0].label), (11, 14, 1));
    assert_eq!((k.inner().calls[3].dest, k.inner().calls[3].length), (6, 1));
    assert_eq!(k.inner().calls[5].dest, b'x' as usize);
    assert_eq!(kio::info_of_word(0x1_0000_2345), 0x2345);
}

#[test]
fn split_hands_out_children_and_unsplit_restores_parent() {
    let mut k = Machine::new(Mock::new());
    let mut slots = seeded(100, 200);
    let set = allocate_cap_slots(&mut slots, 4).unwrap();
    let parent = untyped_at(50, 14);
    let mut children = parent.split(2, set, &mut k).ok().unwrap();
    assert_eq!(k.inner().calls.len(), 1);
    assert_eq!((k.inner().calls[0].dest, k.inner().calls[0].label), (50, kernel::TAG_UNTYPED_RETYPE));
    assert_eq!(k.inner().calls[0].mrs, [ObjectType::UntypedObject.code(), 12, 0, 0, 100, 4]);
    assert_eq!(k.inner().calls[0].cap0, ROOT_SLOT);
    assert_eq!((children.capacity(), children.count(), children.full(), children.remaining()), (4, 4, true, true));
    let mut taken = Vec::new();
    while let Some(child) = children.take_front() {
        assert_eq!(child.size_bits(), 12);
        assert_eq!(child.size_bytes(), 4096);
        taken.push(child);
    }
    let indices: Vec<usize> = taken.iter().map(|u| u.peek_index()).collect();
    assert_eq!(indices, vec![100, 101, 102, 103]);
    assert!(!children.remaining());
    while let Some(child) = taken.pop() {
        children.readd(child);
    }
    assert!(children.full());
    let (back, freed) = children.free(&mut k);
    assert_eq!((back.peek_index(), back.size_bits()), (50, 14));
    assert_eq!((freed.start(), freed.capacity(), freed.full()), (100, 4, true));
    // the four children were deleted, lowest slot first
    let deletes: Vec<usize> = k.inner().calls[1..].iter().map(|c| c.mrs[0]).collect();
    assert_eq!(deletes, vec![100, 101, 102, 103]);
    assert!(k.inner().calls[1..].iter().all(|c| c.label == kernel::TAG_CNODE_DELETE && c.dest == ROOT_SLOT && c.mrs[1] == ROOT_BITS));
    assert!(k.inner().faults.is_empty());
}

#[test]
fn split_children_can_leave_from_the_back() {
    let mut k = Machine::new(Mock::new());
    let mut slots = seeded(10, 20);
    let set = allocate_cap_slots(&mut slots, 2).unwrap();
    let mut children = untyped_at(5, 13).split(1, set, &mut k).ok().unwrap();
    let hi = children.take_back().unwrap();
    let lo = children.take_back().unwrap();
    assert_eq!((hi.peek_index(), lo.peek_index()), (11, 10));
    assert!(children.take_back().is_none());
    children.readd(lo);
    children.readd(hi);
    assert_eq!(children.count(), 2);
}

#[test]
fn refused_split_returns_parent_and_slots() {
    let mut k = Machine::new(Mock::new());
    k.inner_mut().refuse(kernel::TAG_UNTYPED_RETYPE, KError::NotEnoughMemory);
    let mut slots = seeded(100, 200);
    let set = allocate_cap_slots(&mut slots, 2).unwrap();
    let (err, parent, set) = untyped_at(50, 13).split(1, set, &mut k).err().unwrap();
    assert_eq!(err, KError::NotEnoughMemory);
    assert_eq!((parent.peek_index(), parent.size_bits()), (50, 13));
    assert_eq!((set.start(), set.capacity(), set.full()), (100, 2, true));
}

#[test]
fn split_calloc_gives_slots_back_on_refusal() {
    let mut k = Machine::new(Mock::new());
    k.inner_mut().refuse(kernel::TAG_UNTYPED_RETYPE, KError::InvalidArgument);
    let mut slots = seeded(100, 200);
    let (err, parent) = untyped_at(50, 13).split_calloc(1, &mut slots, &mut k).err().unwrap();
    assert_eq!((err, parent.peek_index()), (KError::InvalidArgument, 50));
    assert_eq!(ranges(&slots), vec![(100, 200)]);
    let set = parent.split_calloc(3, &mut slots, &mut k).ok().unwrap();
    assert_eq!((set.capacity(), set.count()), (8, 8));
    assert_eq!(ranges(&slots), vec![(108, 200)]);
    let mut empty = SlotAllocator::new();
    let (err, _) = untyped_at(51, 13).split_calloc(1, &mut empty, &mut k).err().unwrap();
    assert_eq!(err, KError::NotEnoughMemory);
}

#[test]
fn retyping_into_objects() {
    let mut k = Machine::new(Mock::new());
    let page = untyped_at(60, 12).become_page_4k(CapSlot::from_index(200), &mut k).ok().unwrap();
    assert_eq!(page.peek_index(), 200);
    assert_eq!(k.inner().calls[0].mrs, [ObjectType::X864K.code(), 0, 0, 0, 200, 1]);
    let (ut, slot) = page.free(&mut k);
    assert_eq!((ut.peek_index(), ut.size_bits(), slot.deconstruct()), (60, 12, 200));
    let table = ut.become_page_table(CapSlot::from_index(201), &mut k).ok().unwrap();
    assert_eq!(k.inner().calls[2].mrs[0], ObjectType::X86PageTableObject.code());
    let (ut, slot) = table.free(&mut k);
    assert_eq!((ut.peek_index(), slot.deconstruct()), (60, 201));
    let n = untyped_at(61, 4).become_notification(CapSlot::from_index(202), &mut k).ok().unwrap();
    assert_eq!(n.peek_index(), 202);
    assert_eq!(k.inner().calls[4].mrs[0], ObjectType::NotificationObject.code());
    k.inner_mut().refuse(kernel::TAG_UNTYPED_RETYPE, KError::DeleteFirst);
    let (err, ut, slot) = untyped_at(62, 12).become_page_4k(CapSlot::from_index(203), &mut k).err().unwrap();
    assert_eq!((err, ut.peek_index(), slot.deconstruct()), (KError::DeleteFirst, 62, 203));
}

#[test]
fn refused_delete_is_a_fault() {
    let mut k = Machine::new(Mock::new());
    k.inner_mut().refuse(kernel::TAG_CNODE_DELETE, KError::InvalidCapability);
    let slot = CapSlot::from_index(9).assert_populated().delete(&mut k);
    assert_eq!(slot.deconstruct(), 9);
    assert_eq!(k.inner().faults, vec![KError::InvalidCapability]);
}

#[test]
fn untyped_pools_are_filled_by_size() {
    let mut k = Machine::new(Mock::new());
    let mut slots = seeded(1000, 3000);
    let mut a = UntypedAllocator::new();
    assert!(a.add_initial_block(untyped_at(10, 12), &mut slots, &mut k).is_ok());
    assert!(a.add_initial_block(untyped_at(11, 21), &mut slots, &mut k).is_ok());
    assert_eq!(a.counts(), (1, 1));
    assert_eq!(free_slot_count(&slots), 2000);
    // 64K: sixteen pages
    assert!(a.add_initial_block(untyped_at(12, 16), &mut slots, &mut k).is_ok());
    assert_eq!(a.counts(), (17, 1));
    assert_eq!(ranges(&slots), vec![(1016, 3000)]);
    assert_eq!(k.inner().calls.last().unwrap().mrs, [0, 12, 0, 0, 1000, 16]);
    // 8M: four large pages
    assert!(a.add_initial_block(untyped_at(13, 23), &mut slots, &mut k).is_ok());
    assert_eq!(a.counts(), (17, 5));
    assert_eq!(k.inner().calls.last().unwrap().mrs, [0, 21, 0, 0, 1016, 4]);
    // 1G: two halves of 512M, 256 large pages each
    assert!(a.add_initial_block(untyped_at(14, 30), &mut slots, &mut k).is_ok());
    assert_eq!(a.counts(), (17, 5 + 512));
    assert_eq!(free_slot_count(&slots), 2000 - 16 - 4 - 2 - 512);
    let info = a.print_info();
    assert_eq!((info.large_blocks, info.large_kb, info.small_blocks, info.small_kb), (517, 517 * 2048, 17, 68));
    assert_eq!((info.total_kb, info.total_mb), (517 * 2048 + 68, 1034));
}

#[test]
fn small_pages_come_from_the_pool_and_go_back() {
    let mut k = Machine::new(Mock::new());
    let mut slots = seeded(500, 600);
    let mut a = pool_of_pages(20, 3);
    let p = allocate_untyped_4k(&mut a, &mut slots, &mut k).unwrap();
    assert_eq!((p.peek_index(), p.size_bits(), a.counts()), (20, 12, (2, 0)));
    free_untyped_4k(&mut a, p);
    assert_eq!(a.counts(), (3, 0));
    let again = a.allocate_small_page(&mut slots, &mut k).unwrap();
    assert_eq!(again.peek_index(), 20);
    assert!(k.inner().calls.is_empty());
    assert_eq!(ranges(&slots), vec![(500, 600)]);
}

#[test]
fn empty_small_pool_splits_a_large_page() {
    let mut k = Machine::new(Mock::new());
    let mut slots = seeded(1000, 2000);
    let mut a = UntypedAllocator::new();
    a.add_large_page(untyped_at(30, 21));
    let p = a.allocate_small_page(&mut slots, &mut k).unwrap();
    assert_eq!(p.size_bits(), 12);
    assert_eq!(a.counts(), (511, 0));
    assert_eq!(free_slot_count(&slots), 1000 - 2 - 512);
    // one split in two, then each half in 256
    let retypes: Vec<[usize; 6]> = k.inner().calls.iter().map(|c| c.mrs).collect();
    assert_eq!(retypes, vec![[0, 20, 0, 0, 1000, 2], [0, 12, 0, 0, 1002, 256], [0, 12, 0, 0, 1258, 256]]);
    assert_eq!((k.inner().calls[0].dest, k.inner().calls[1].dest, k.inner().calls[2].dest), (30, 1000, 1001));
    assert_eq!(p.peek_index(), 1258 + 255);
}

#[test]
fn empty_pools_report_not_enough_memory() {
    let mut k = Machine::new(Mock::new());
    let mut slots = seeded(1000, 2000);
    let mut a = UntypedAllocator::new();
    assert_eq!(a.allocate_small_page(&mut slots, &mut k).err(), Some(KError::NotEnoughMemory));
    assert_eq!(a.allocate_large_page().err(), Some(KError::NotEnoughMemory));
    assert_eq!(ranges(&slots), vec![(1000, 2000)]);
    a.add_large_page(untyped_at(30, 21));
    let mut none = SlotAllocator::new();
    assert_eq!(a.allocate_small_page(&mut none, &mut k).err(), Some(KError::NotEnoughMemory));
    assert_eq!(a.counts(), (0, 1));
}

#[test]
fn refused_refill_puts_everything_back() {
    let mut k = Machine::new(Mock::new());
    k.inner_mut().refuse(kernel::TAG_UNTYPED_RETYPE, KError::IllegalOperation);
    let mut slots = seeded(1000, 2000);
    let mut a = UntypedAllocator::new();
    a.add_large_page(untyped_at(30, 21));
    assert_eq!(a.allocate_small_page(&mut slots, &mut k).err(), Some(KError::IllegalOperation));
    assert_eq!(a.counts(), (0, 1));
    assert_eq!(ranges(&slots), vec![(1000, 2000)]);
    // the second retype is refused: the halves are deleted and the large page is whole again
    let mut k = Machine::new(Mock::new());
    k.inner_mut().calls.clear();
    k.inner_mut().script.push((kernel::TAG_UNTYPED_RETYPE, 0));
    k.inner_mut().refuse(kernel::TAG_UNTYPED_RETYPE, KError::RangeError);
    assert_eq!(a.allocate_small_page(&mut slots, &mut k).err(), Some(KError::RangeError));
    assert_eq!(a.counts(), (0, 1));
    assert_eq!(free_slot_count(&slots), 1000);
    assert_eq!(k.inner().count(kernel::TAG_CNODE_DELETE), 2);
    assert_eq!(a.allocate_large_page().unwrap().peek_index(), 30);
}

#[test]
fn refill_keeps_the_half_that_cannot_be_split() {
    // slots for the two halves and for the pages of one half only
    let mut k = Machine::new(Mock::new());
    let mut slots = seeded(1000, 1000 + 2 + 256 + 10);
    let mut a = UntypedAllocator::new();
    a.add_large_page(untyped_at(30, 21));
    let p = a.allocate_small_page(&mut slots, &mut k).unwrap();
    assert_eq!((p.peek_index(), a.counts()), (1002 + 255, (255, 0)));
    assert_eq!(ranges(&slots), vec![(1258, 1268)]);
    assert_eq!(k.inner().count(kernel::TAG_UNTYPED_RETYPE), 2);
    // the kernel refuses to split the second half: its slots go back
    let mut k = Machine::new(Mock::new());
    k.inner_mut().script.push((kernel::TAG_UNTYPED_RETYPE, 0));
    k.inner_mut().script.push((kernel::TAG_UNTYPED_RETYPE, 0));
    k.inner_mut().refuse(kernel::TAG_UNTYPED_RETYPE, KError::RevokeFirst);
    let mut slots = seeded(1000, 2000);
    let mut a = UntypedAllocator::new();
    a.add_large_page(untyped_at(30, 21));
    let p = a.allocate_small_page(&mut slots, &mut k).unwrap();
    assert_eq!((p.peek_index(), a.counts()), (1002 + 255, (255, 0)));
    assert_eq!(free_slot_count(&slots), 1000 - 2 - 256);
    assert_eq!(k.inner().count(kernel::TAG_UNTYPED_RETYPE), 3);
    assert_eq!(k.inner().count(kernel::TAG_CNODE_DELETE), 0);
}

#[test]
fn page_allocation_round_trip() {
    let mut k = Machine::new(Mock::new());
    let mut slots = seeded(500, 600);
    let mut a = pool_of_pages(20, 2);
    let page = allocate_page4k(&mut a, &mut slots, &mut k).unwrap();
    assert_eq!(page.peek_index(), 500);
    assert_eq!((a.counts(), ranges(&slots)), ((1, 0), vec![(501, 600)]));
    assert_eq!((k.inner().calls[0].dest, k.inner().calls[0].mrs), (20, [7, 0, 0, 0, 500, 1]));
    free_page4k(&mut a, &mut slots, page, &mut k);
    assert_eq!((a.counts(), ranges(&slots)), ((2, 0), vec![(500, 600)]));
    assert_eq!(k.inner().calls[1].label, kernel::TAG_CNODE_DELETE);
    k.inner_mut().refuse(kernel::TAG_UNTYPED_RETYPE, KError::TruncatedMessage);
    assert_eq!(allocate_page4k(&mut a, &mut slots, &mut k).err(), Some(KError::TruncatedMessage));
    assert_eq!((a.counts(), ranges(&slots)), ((2, 0), vec![(500, 600)]));
    let mut none = SlotAllocator::new();
    assert_eq!(allocate_page4k(&mut a, &mut none, &mut k).err(), Some(KError::NotEnoughMemory));
}

#[test]
fn notifications_come_from_fragments() {
    let mut k = Machine::new(Mock::new());
    let mut slots = seeded(1000, 2000);
    let mut pages = pool_of_pages(20, 1);
    let mut fragments = FragmentAllocator::new();
    let n = allocate_notification(&mut fragments, &mut pages, &mut slots, &mut k).unwrap();
    // the page was split in 256 fragments; one of them became the notification
    assert_eq!((fragments.count(), pages.counts()), (255, (0, 0)));
    assert_eq!(k.inner().calls[0].mrs, [0, 4, 0, 0, 1000, 256]);
    assert_eq!(k.inner().calls[1].mrs, [ObjectType::NotificationObject.code(), 0, 0, 0, 1256, 1]);
    assert_eq!(n.peek_index(), 1256);
    assert_eq!(ranges(&slots), vec![(1257, 2000)]);
    k.inner_mut().words = vec![0b110];
    assert_eq!(n.wait(&mut k), 0b110);
    assert_eq!(n.poll(&mut k), 0);
    n.signal(&mut k);
    assert_eq!(k.inner().calls.last().unwrap().dest, 1256);
    free_notification(&mut fragments, &mut slots, n, &mut k);
    assert_eq!(fragments.count(), 256);
    assert_eq!(ranges(&slots), vec![(1256, 2000)]);
    let ut = allocate_untyped_16b(&mut fragments, &mut pages, &mut slots, &mut k).unwrap();
    assert_eq!(ut.size_bits(), 4);
    free_untyped_16b(&mut fragments, ut);
    assert_eq!(fragments.count(), 256);
}

#[test]
fn notification_failures_give_everything_back() {
    let mut k = Machine::new(Mock::new());
    let mut slots = seeded(1000, 2000);
    let mut pages = UntypedAllocator::new();
    let mut fragments = FragmentAllocator::new();
    assert_eq!(
        allocate_notification(&mut fragments, &mut pages, &mut slots, &mut k).err(),
        Some(KError::NotEnoughMemory)
    );
    free_untyped_16b(&mut fragments, untyped_at(70, 4));
    k.inner_mut().refuse(kernel::TAG_UNTYPED_RETYPE, KError::AlignmentError);
    assert_eq!(
        allocate_notification(&mut fragments, &mut pages, &mut slots, &mut k).err(),
        Some(KError::AlignmentError)
    );
    assert_eq!((fragments.count(), ranges(&slots)), (1, vec![(1000, 2000)]));
    let mut none = SlotAllocator::new();
    assert_eq!(
        allocate_notification(&mut fragments, &mut pages, &mut none, &mut k).err(),
        Some(KError::NotEnoughMemory)
    );
    assert_eq!(fragments.count(), 1);
}

#[test]
fn page_table_is_mapped_on_failed_lookup() {
    let mut k = Machine::new(Mock::new());
    let mut slots = seeded(500, 600);
    let mut pages = pool_of_pages(20, 3);
    let mut tables = PageTables::new();
    let page = allocate_page4k(&mut pages, &mut slots, &mut k).unwrap();
    k.inner_mut().calls.clear();
    k.inner_mut().refuse(kernel::TAG_X86_PAGE_MAP, KError::FailedLookup);
    let mapped = page.map_into_addr(0x60_3000, true, &mut slots, &mut pages, &mut tables, &mut k).ok().unwrap();
    assert_eq!(mapped.get_addr(), 0x60_3000);
    assert_eq!(tables.len(), 1);
    assert_eq!(k.inner().labels(), vec![37, 1, 33, 37]);
    assert_eq!((k.inner().calls[0].dest, k.inner().calls[0].cap0, k.inner().calls[0].mrs[0], k.inner().calls[0].mrs[1]), (500, ROOT_PAGEDIR, 0x60_3000, 3));
    assert_eq!(k.inner().calls[1].mrs, [ObjectType::X86PageTableObject.code(), 0, 0, 0, 501, 1]);
    assert_eq!((k.inner().calls[2].dest, k.inner().calls[2].mrs[0]), (501, 0x60_0000));
    assert_eq!(pages.counts(), (1, 0));
    let page = mapped.unmap(&mut k);
    assert_eq!(k.inner().calls.last().unwrap().label, kernel::TAG_X86_PAGE_UNMAP);
    assert_eq!(page.peek_index(), 500);
    assert!(k.inner().faults.is_empty());
    assert_eq!(page_table_base(0x60_3000), 0x60_0000);
    assert_eq!(page_table_base(0x1f_ffff), 0);
}

#[test]
fn mapping_is_retried_exactly_once() {
    let mut k = Machine::new(Mock::new());
    let mut slots = seeded(500, 600);
    let mut pages = pool_of_pages(20, 3);
    let mut tables = PageTables::new();
    let page = allocate_page4k(&mut pages, &mut slots, &mut k).unwrap();
    k.inner_mut().calls.clear();
    k.inner_mut().refuse(kernel::TAG_X86_PAGE_MAP, KError::FailedLookup);
    k.inner_mut().refuse(kernel::TAG_X86_PAGE_MAP, KError::FailedLookup);
    let (page, err) = page.map_into_addr(0x1000, false, &mut slots, &mut pages, &mut tables, &mut k).err().unwrap();
    assert_eq!((err, page.peek_index()), (KError::FailedLookup, 500));
    assert_eq!(k.inner().labels(), vec![37, 1, 33, 37]);
    assert_eq!(k.inner().calls[0].mrs[1], 2);
    assert_eq!(tables.len(), 1);
    // a refused page table is taken apart again
    k.inner_mut().calls.clear();
    k.inner_mut().refuse(kernel::TAG_X86_PAGE_MAP, KError::FailedLookup);
    k.inner_mut().refuse(kernel::TAG_X86_PAGETABLE_MAP, KError::DeleteFirst);
    let before = (pages.counts(), ranges(&slots));
    let (page, err) = page.map_into_addr(0x1000, false, &mut slots, &mut pages, &mut tables, &mut k).err().unwrap();
    assert_eq!(err, KError::FailedLookup);
    assert_eq!(k.inner().labels(), vec![37, 1, 33, 15]);
    assert_eq!((pages.counts(), ranges(&slots)), before);
    assert_eq!(tables.len(), 1);
    // any other error is final
    k.inner_mut().calls.clear();
    k.inner_mut().refuse(kernel::TAG_X86_PAGE_MAP, KError::InvalidArgument);
    let (_, err) = page.map_into_addr(0x1000, false, &mut slots, &mut pages, &mut tables, &mut k).err().unwrap();
    assert_eq!((err, k.inner().labels()), (KError::InvalidArgument, vec![37]));
}

#[test]
fn map_page_table_unwinds_in_every_step() {
    let mut k = Machine::new(Mock::new());
    let mut tables = PageTables::new();
    let mut none = SlotAllocator::new();
    let mut pages = pool_of_pages(20, 1);
    assert_eq!(map_page_table(0, &mut none, &mut pages, &mut tables, &mut k), KError::NotEnoughMemory);
    let mut slots = seeded(500, 600);
    let mut empty = UntypedAllocator::new();
    assert_eq!(map_page_table(0, &mut slots, &mut empty, &mut tables, &mut k), KError::NotEnoughMemory);
    assert_eq!(ranges(&slots), vec![(500, 600)]);
    k.inner_mut().refuse(kernel::TAG_UNTYPED_RETYPE, KError::RevokeFirst);
    assert_eq!(map_page_table(0, &mut slots, &mut pages, &mut tables, &mut k), KError::RevokeFirst);
    assert_eq!((pages.counts(), ranges(&slots), tables.len()), ((1, 0), vec![(500, 600)], 0));
    assert_eq!(map_page_table(0, &mut slots, &mut pages, &mut tables, &mut k), KError::NoError);
    assert_eq!((pages.counts(), ranges(&slots), tables.len()), ((0, 0), vec![(501, 600)], 1));
}

#[test]
fn region_mapped_page_round_trip() {
    let mut k = Machine::new(Mock::new());
    let mut slots = seeded(500, 600);
    let mut pages = pool_of_pages(20, 3);
    let mut tables = PageTables::new();
    let mut vspace = RegionAllocator::new();
    free_vregion(&mut vspace, VRegion::new(0x7000, 0x9000));
    let page = allocate_page4k(&mut pages, &mut slots, &mut k).unwrap();
    let mut mapped = page.map_into_vspace(true, &mut vspace, &mut slots, &mut pages, &mut tables, &mut k).ok().unwrap();
    assert_eq!((mapped.get_addr(), mapped.get_ptr()), (0x7000, 0x7000));
    assert_eq!(regions(&vspace), vec![(0x8000, 0x9000)]);
    let page = mapped.unmap(&mut vspace, &mut k);
    assert_eq!(regions(&vspace), vec![(0x7000, 0x9000)]);
    k.inner_mut().refuse(kernel::TAG_X86_PAGE_MAP, KError::RangeError);
    let (page, err) = page.map_into_vspace(true, &mut vspace, &mut slots, &mut pages, &mut tables, &mut k).err().unwrap();
    assert_eq!(err, KError::RangeError);
    assert_eq!(regions(&vspace), vec![(0x7000, 0x9000)]);
    let mut full = RegionAllocator::new();
    let (page, err) = page.map_into_vspace(true, &mut full, &mut slots, &mut pages, &mut tables, &mut k).err().unwrap();
    assert_eq!((err, page.peek_index()), (KError::NotEnoughMemory, 500));
    k.inner_mut().refuse(kernel::TAG_X86_PAGE_UNMAP, KError::IllegalOperation);
    let mapped = page.map_into_vspace(false, &mut vspace, &mut slots, &mut pages, &mut tables, &mut k).ok().unwrap();
    let _ = mapped.unmap(&mut vspace, &mut k);
    assert_eq!(k.inner().faults, vec![KError::IllegalOperation]);
}

fn vga_devices() -> Devices {
    let mut list = no_untypeds();
    list[0] = UntypedDesc { paddr: 0xB8000, padding1: 0, padding2: 0, size_bits: 16, is_device: 1 };
    device::init_untyped(CapRange::range(1024, 1025), &list)
}

#[test]
fn device_page_is_reached_by_four_splits() {
    let mut k = Machine::new(Mock::new());
    let mut slots = seeded(2000, 3000);
    let mut devices = vga_devices();
    assert_eq!(blocks(devices.block(0).unwrap()), vec![(0xB8000, 16, true)]);
    let page = device::get_device_page(&mut devices, &mut slots, 0xB8000, &mut k).unwrap();
    assert_eq!(k.inner().count(kernel::TAG_UNTYPED_RETYPE), 5);
    let sizes: Vec<usize> = k.inner().calls.iter().map(|c| c.mrs[1]).collect();
    assert_eq!(sizes, vec![15, 14, 13, 12, 0]);
    assert_eq!(k.inner().calls[4].mrs[0], ObjectType::X864K.code());
    let block = devices.block(0).unwrap();
    assert_eq!(block.block_count(), 9);
    assert_eq!(
        blocks(block),
        vec![
            (0xB8000, 12, false),
            (0xB9000, 12, true),
            (0xB8000, 13, false),
            (0xBA000, 13, true),
            (0xB8000, 14, false),
            (0xBC000, 14, true),
            (0xB8000, 15, false),
            (0xC0000, 15, true),
            (0xB8000, 16, false),
        ]
    );
    // one slot for the frame and two for each split
    assert_eq!(page.peek_index(), 2000);
    assert_eq!(ranges(&slots), vec![(2009, 3000)]);
    device::return_device_page(&mut devices, &mut slots, 0xB8000, page, &mut k);
    assert_eq!(ranges(&slots), vec![(2009, 3000), (2000, 2001)]);
    assert_eq!(devices.block(0).unwrap().block_at(0), Some((0xB8000, 12, true)));
    // from now on the page needs no split, and taking and returning it changes nothing
    let before = ranges(&slots);
    let calls_before = k.inner().count(kernel::TAG_UNTYPED_RETYPE);
    for _ in 0..3 {
        let page = device::get_device_page(&mut devices, &mut slots, 0xB8123, &mut k).unwrap();
        assert_eq!(devices.block(0).unwrap().block_count(), 9);
        device::return_device_page(&mut devices, &mut slots, 0xB8123, page, &mut k);
    }
    assert_eq!(k.inner().count(kernel::TAG_UNTYPED_RETYPE), calls_before + 3);
    assert_eq!(free_slot_count(&slots), before.iter().map(|r| r.1 - r.0).sum::<usize>());
}

#[test]
fn device_lookup_failures() {
    let mut k = Machine::new(Mock::new());
    let mut slots = seeded(2000, 3000);
    let mut devices = vga_devices();
    assert_eq!(device::get_device_page(&mut devices, &mut slots, 0xB7FFF, &mut k).err(), Some(KError::FailedLookup));
    assert_eq!(device::get_device_page(&mut devices, &mut slots, 0xC8000, &mut k).err(), Some(KError::FailedLookup));
    assert!(device::get_containing_block(&mut devices, 0xC8000).is_none());
    assert!(device::get_containing_block(&mut devices, 0xC7FFF).is_some());
    let page = device::get_device_page(&mut devices, &mut slots, 0xC7FFF, &mut k).unwrap();
    // the page is out: asking again fails, and the slot taken for the frame goes back
    let before = ranges(&slots);
    assert_eq!(device::get_device_page(&mut devices, &mut slots, 0xC7000, &mut k).err(), Some(KError::FailedLookup));
    assert_eq!(free_slot_count(&slots), before.iter().map(|r| r.1 - r.0).sum::<usize>());
    device::return_device_page(&mut devices, &mut slots, 0xC7FFF, page, &mut k);
    let mut none = SlotAllocator::new();
    assert_eq!(device::get_device_page(&mut devices, &mut none, 0xB8000, &mut k).err(), Some(KError::NotEnoughMemory));
}

#[test]
fn refused_device_split_leaves_the_block_whole() {
    let mut k = Machine::new(Mock::new());
    k.inner_mut().refuse(kernel::TAG_UNTYPED_RETYPE, KError::NotEnoughMemory);
    let mut slots = seeded(2000, 3000);
    let mut devices = vga_devices();
    assert_eq!(device::get_device_page(&mut devices, &mut slots, 0xB8000, &mut k).err(), Some(KError::NotEnoughMemory));
    assert_eq!(blocks(devices.block(0).unwrap()), vec![(0xB8000, 16, true)]);
    assert_eq!(ranges(&slots), vec![(2000, 3000)]);
    // the retype of the page itself is refused: the splits stay, the page is at hand again
    k.inner_mut().script = vec![(1, 0), (1, 0), (1, 0), (1, 0), (1, KError::RangeError.code())];
    assert_eq!(device::get_device_page(&mut devices, &mut slots, 0xB8000, &mut k).err(), Some(KError::RangeError));
    assert_eq!(devices.block(0).unwrap().block_at(0), Some((0xB8000, 12, true)));
    assert_eq!(free_slot_count(&slots), 1000 - 8);
}

#[test]
fn device_walk_keeps_the_splits_made_before_a_refusal() {
    // the third split is refused: two splits stay, and the walk goes on from there
    let mut k = Machine::new(Mock::new());
    k.inner_mut().script = vec![(1, 0), (1, 0), (1, KError::DeleteFirst.code())];
    let mut slots = seeded(2000, 3000);
    let mut block = DeviceBlock::new(untyped_at(1024, 16), 0xB8000);
    assert_eq!(block.get_device_page_untyped(0xB8000, &mut slots, &mut k).err(), Some(KError::DeleteFirst));
    assert_eq!(
        blocks(&block),
        vec![(0xB8000, 14, true), (0xBC000, 14, true), (0xB8000, 15, false), (0xC0000, 15, true), (0xB8000, 16, false)]
    );
    assert_eq!(free_slot_count(&slots), 1000 - 4);
    assert_eq!(k.inner().count(kernel::TAG_UNTYPED_RETYPE), 3);
    // no slots for the next split: the error is made here, the kernel is not asked
    let mut none = SlotAllocator::new();
    assert_eq!(block.get_device_page_untyped(0xB8000, &mut none, &mut k).err(), Some(KError::NotEnoughMemory));
    assert_eq!(k.inner().count(kernel::TAG_UNTYPED_RETYPE), 3);
    assert_eq!(blocks(&block).len(), 5);
    let ut = block.get_device_page_untyped(0xB8000, &mut slots, &mut k).unwrap();
    assert_eq!((ut.size_bits(), blocks(&block).len()), (12, 9));
    assert_eq!(k.inner().count(kernel::TAG_UNTYPED_RETYPE), 5);
}

#[test]
fn subblock_split_and_unsplit() {
    let mut k = Machine::new(Mock::new());
    let mut slots = seeded(2000, 3000);
    let mut block = Subblock::new(untyped_at(77, 14), 0x10_0000);
    assert_eq!((block.start(), block.len(), block.mid(), block.end()), (0x10_0000, 0x4000, 0x10_2000, 0x10_4000));
    assert!(block.contains(0x10_3fff) && !block.contains(0x10_4000) && !block.contains(0xf_ffff));
    assert!(block.is_available() && block.needs_split());
    let (lo, hi) = block.split(&mut slots, &mut k).unwrap();
    assert!(!block.is_available());
    assert_eq!((lo.start(), lo.len(), hi.start(), hi.len()), (0x10_0000, 0x2000, 0x10_2000, 0x2000));
    assert_eq!(ranges(&slots), vec![(2002, 3000)]);
    block.unsplit(lo, hi, &mut slots, &mut k);
    assert!(block.is_available());
    assert_eq!(ranges(&slots), vec![(2000, 3000)]);
    assert_eq!(k.inner().labels(), vec![1, 15, 15]);
    let ut = block.take();
    assert_eq!((ut.peek_index(), block.is_available()), (77, false));
    block.return_taken(ut);
    let mut page = Subblock::new(untyped_at(78, 12), 0x20_0000);
    assert!(!page.needs_split());
    let got = page.try_use_as_page(&mut slots, &mut k).unwrap().ok().unwrap();
    assert_eq!(got.peek_index(), 78);
    let (a, b) = block.try_use_as_page(&mut slots, &mut k).unwrap().err().unwrap();
    assert_eq!((a.len(), b.len()), (0x2000, 0x2000));
    let mut none = SlotAllocator::new();
    let mut other = Subblock::new(untyped_at(79, 13), 0x30_0000);
    assert_eq!(other.split(&mut none, &mut k).err(), Some(KError::NotEnoughMemory));
    assert!(other.is_available());
}

#[test]
fn device_block_untyped_round_trip() {
    let mut k = Machine::new(Mock::new());
    let mut slots = seeded(2000, 3000);
    let mut block = DeviceBlock::new(untyped_at(5, 13), 0x4000);
    assert_eq!((block.start(), block.len(), block.end()), (0x4000, 0x2000, 0x6000));
    assert!(block.contains(0x5fff) && !block.contains(0x6000));
    let ut = block.get_device_page_untyped(0x5000, &mut slots, &mut k).unwrap();
    assert_eq!((ut.size_bits(), ut.peek_index()), (12, 2001));
    assert_eq!(blocks(&block), vec![(0x5000, 12, false), (0x4000, 12, true), (0x4000, 13, false)]);
    assert_eq!(block.get_device_page_untyped(0x5000, &mut slots, &mut k).err(), Some(KError::FailedLookup));
    block.return_device_page_untyped(0x5000, ut);
    let page = block.get_device_page(0x5abc, CapSlot::from_index(9), &mut slots, &mut k).ok().unwrap();
    assert_eq!(page.peek_index(), 9);
    assert_eq!(block.return_device_page(0x5abc, page, &mut k).deconstruct(), 9);
    assert_eq!(block.block_at(0), Some((0x5000, 12, true)));
}

#[test]
fn device_blocks_are_listed_by_address() {
    let mut list = no_untypeds();
    list[0] = UntypedDesc { paddr: 0x1000, padding1: 0, padding2: 0, size_bits: 12, is_device: 1 };
    list[1] = UntypedDesc { paddr: 0x10_0000, padding1: 0, padding2: 0, size_bits: 21, is_device: 0 };
    list[2] = UntypedDesc { paddr: 0xB8000, padding1: 0, padding2: 0, size_bits: 16, is_device: 1 };
    let devices = device::init_untyped(CapRange::range(300, 303), &list);
    assert_eq!(blocks(devices.block(0).unwrap()), vec![(0x1000, 12, true)]);
    assert_eq!(blocks(devices.block(1).unwrap()), vec![(0xB8000, 16, true)]);
    assert!(devices.block(2).is_none());
    assert!(Devices::new().block(0).is_none());
}

#[test]
fn mapped_vga_page_with_missing_page_table() {
    let mut k = Machine::new(Mock::new());
    let mut slots = seeded(2000, 3000);
    let mut devices = vga_devices();
    let mut pages = pool_of_pages(20, 2);
    let mut tables = PageTables::new();
    let mut vspace = RegionAllocator::new();
    free_vregion(&mut vspace, VRegion::new(0x1000, 0x10_0000));
    k.inner_mut().refuse(kernel::TAG_X86_PAGE_MAP, KError::FailedLookup);
    let mapped = device::get_mapped_device_page(&mut devices, &mut slots, &mut vspace, &mut pages, &mut tables, 0xB8000, &mut k).unwrap();
    assert_eq!(mapped.get_addr(), 0x1000);
    assert_eq!(tables.len(), 1);
    let tail: Vec<u32> = k.inner().labels()[5..].to_vec();
    assert_eq!(tail, vec![37, 1, 33, 37]);
    let table_map = &k.inner().calls[7];
    assert_eq!((table_map.mrs[0], table_map.cap0), (0x0, ROOT_PAGEDIR));
    assert_eq!(k.inner().calls[6].dest, 20);
    assert_eq!(pages.counts(), (1, 0));
    device::return_mapped_device_page(&mut devices, &mut slots, &mut vspace, 0xB8000, mapped, &mut k);
    assert_eq!(regions(&vspace), vec![(0x1000, 0x10_0000)]);
    assert_eq!(devices.block(0).unwrap().block_at(0), Some((0xB8000, 12, true)));
    assert_eq!(tables.len(), 1);
    // mapping refused for good: the frame goes back to the device block
    k.inner_mut().refuse(kernel::TAG_X86_PAGE_MAP, KError::InvalidCapability);
    let free_before = free_slot_count(&slots);
    assert_eq!(
        device::get_mapped_device_page(&mut devices, &mut slots, &mut vspace, &mut pages, &mut tables, 0xB8000, &mut k).err(),
        Some(KError::InvalidCapability)
    );
    assert_eq!(free_slot_count(&slots), free_before);
    assert_eq!(regions(&vspace), vec![(0x1000, 0x10_0000)]);
    assert_eq!(devices.block(0).unwrap().block_at(0), Some((0xB8000, 12, true)));
    assert_eq!(
        device::get_mapped_device_page(&mut devices, &mut slots, &mut vspace, &mut pages, &mut tables, 0x5000, &mut k).err(),
        Some(KError::FailedLookup)
    );
}

fn boot_info(sizes: &[u8]) -> BootInfo {
    let mut list = no_untypeds();
    for (i, bits) in sizes.iter().enumerate() {
        list[i] = UntypedDesc { paddr: 0x100_0000 * (i + 1), padding1: 0, padding2: 0, size_bits: *bits, is_device: 0 };
    }
    let none = SlotRegion { start: 0, end: 0 };
    BootInfo {
        extra_len: 0,
        node_id: 0,
        num_nodes: 1,
        num_iopt_levels: 0,
        ipc_buffer: 0x7000,
        empty: SlotRegion { start: 12, end: 262144 },
        shared_frames: none,
        user_image_frames: SlotRegion { start: 20, end: 36 },
        user_image_paging: none,
        io_space_caps: none,
        extra_bi_pages: none,
        init_thread_cnode_size_bits: 18,
        init_thread_domain: 0,
        arch_info: 0,
        untyped: SlotRegion { start: 1024, end: 1024 + sizes.len() },
        untyped_list: list,
    }
}

#[test]
fn bootstrap_builds_the_allocators() {
    let mut k = Machine::new(Mock::new());
    let bi = boot_info(&[12, 12, 12, 12, 21, 21]);
    let mut task = set_bootinfo(&bi, 0x40_0000, 0x80_0000, &mut k).unwrap();
    assert_eq!(ranges(&task.slots), vec![(12, 262144)]);
    assert_eq!(task.untyped.counts(), (4, 2));
    assert!(k.inner().calls.is_empty());
    // the address space starts eight pages above the image; the heap took 256 MB of it
    let start = 0x40_0000 + 16 * 0x1000 + 0x8000;
    assert_eq!(regions(&task.vspace), vec![(start + 0x1000_0000, kernel_base_vaddr())]);
    let arena = task.heap.dynamic.as_ref().unwrap();
    assert_eq!((arena.start(), arena.marks()), (start, (0, 0)));
    assert_eq!((task.tables.len(), task.fragments.count()), (0, 0));
    assert!(task.devices.block(0).is_none());
    // lowest entry first in both pools
    let first = allocate_untyped_4k(&mut task.untyped, &mut task.slots, &mut k).unwrap();
    assert_eq!(first.peek_index(), 1024);
    assert_eq!(task.untyped.allocate_large_page().unwrap().peek_index(), 1028);
}

#[test]
fn bootstrap_splits_what_is_not_a_page() {
    let mut k = Machine::new(Mock::new());
    let mut bi = boot_info(&[14, 12, 22]);
    bi.untyped_list[3] = UntypedDesc { paddr: 0xB8000, padding1: 0, padding2: 0, size_bits: 16, is_device: 1 };
    bi.untyped.end = 1028;
    let task = set_bootinfo(&bi, 0x40_0000, 0x80_0000, &mut k).unwrap();
    assert_eq!(task.untyped.counts(), (5, 2));
    assert_eq!(ranges(&task.slots), vec![(18, 262144)]);
    // the page first, then what is smaller than 2M, then the rest
    let retypes: Vec<(usize, [usize; 6])> = k.inner().calls.iter().map(|c| (c.dest, c.mrs)).collect();
    assert_eq!(retypes, vec![(1024, [0, 12, 0, 0, 12, 4]), (1026, [0, 21, 0, 0, 16, 2])]);
    assert_eq!(blocks(task.devices.block(0).unwrap()), vec![(0xB8000, 16, true)]);
    k.inner_mut().refuse(kernel::TAG_UNTYPED_RETYPE, KError::NotEnoughMemory);
    assert_eq!(set_bootinfo(&bi, 0x40_0000, 0x80_0000, &mut k).err().map(|e| e), Some(KError::NotEnoughMemory));
}

#[test]
fn untyped_init_passes() {
    let mut k = Machine::new(Mock::new());
    let mut slots = seeded(5000, 6000);
    let mut a = UntypedAllocator::new();
    let bi = boot_info(&[21, 12, 21, 12]);
    assert!(untyped::init_untyped(&mut a, CapRange::range(1024, 1028), &bi.untyped_list, &mut slots, &mut k).is_ok());
    assert_eq!(a.counts(), (2, 2));
    assert_eq!(a.allocate_large_page().unwrap().peek_index(), 1024);
    assert_eq!(a.allocate_large_page().unwrap().peek_index(), 1026);
    assert_eq!(a.allocate_small_page(&mut slots, &mut k).unwrap().peek_index(), 1025);
    assert_eq!(a.allocate_small_page(&mut slots, &mut k).unwrap().peek_index(), 1027);
}

#[test]
fn irq_control_hands_out_handlers() {
    let mut k = Machine::new(Mock::new());
    let control = IRQControl::from_cap(CapSlot::from_index(4).assert_populated());
    let handler = control.get(12, CapSlot::from_index(90), &mut k).ok().unwrap();
    assert_eq!(handler.peek_index(), 90);
    assert!(handler.ack(&mut k).is_ok());
    k.inner_mut().refuse(kernel::TAG_IRQ_ACK_IRQ, KError::IllegalOperation);
    assert_eq!(handler.ack(&mut k), Err(KError::IllegalOperation));
    assert!(handler.clear(&mut k).is_ok());
    assert_eq!(handler.free(&mut k).deconstruct(), 90);
    k.inner_mut().refuse(kernel::TAG_IRQ_ISSUE_IRQ_HANDLER, KError::RevokeFirst);
    let (err, slot) = control.get(12, CapSlot::from_index(91), &mut k).err().unwrap();
    assert_eq!((err, slot.deconstruct()), (KError::RevokeFirst, 91));
    let _ = allocate_cap_slot;
    let _ = free_cap_slot;
}

fn console(k: &Machine<Mock>) -> String {
    let bytes: Vec<u8> =
        k.inner().calls.iter().filter(|c| c.syscall == kernel::SYS_DEBUG_PUTCHAR).map(|c| c.dest as u8).collect();
    String::from_utf8(bytes).unwrap()
}

#[test]
fn boot_information_is_printed() {
    let mut k = Machine::new(Mock::new());
    let mut bi = boot_info(&[12, 12, 12, 12, 21, 21]);
    bi.node_id = 7;
    bi.num_iopt_levels = usize::MAX;
    bi.shared_frames = SlotRegion { start: 0, end: 10 };
    print_bootinfo(&mut k, &bi);
    assert_eq!(
        console(&k),
        "BootInfo:\n  nodeID = 7\n  numNodes = 1\n  numIOPTLevels = -1\n  ipcBuffer = <object>\n  \
         empty = [12, 262144)\n  sharedFrames = [0, 10)\n  userImageFrames = [20, 36)\n  \
         userImagePaging = [0, 0)\n  untyped = [1024, 1030)\n  untypedList = {6}\n  \
         initThreadCNodeSizeBits = 18\n  initThreadDomain = 0\n"
    );
    assert_eq!(k.inner().calls.len(), console(&k).len());
}

#[test]
fn numbers_on_the_console() {
    let mut k = Machine::new(Mock::new());
    put_decimal(&mut k, 0);
    put_str(&mut k, " ");
    put_decimal(&mut k, 9);
    put_str(&mut k, " ");
    put_decimal(&mut k, 10);
    put_str(&mut k, " ");
    put_decimal(&mut k, 1234567890);
    put_str(&mut k, " ");
    put_decimal(&mut k, usize::MAX);
    put_str(&mut k, " ");
    put_signed(&mut k, 42);
    put_str(&mut k, " ");
    put_signed(&mut k, isize::MAX as usize);
    put_str(&mut k, " ");
    put_signed(&mut k, isize::MAX as usize + 1);
    put_str(&mut k, " ");
    put_signed(&mut k, usize::MAX - 41);
    assert_eq!(
        console(&k),
        format!(
            "0 9 10 1234567890 {} 42 {} {} -42",
            usize::MAX,
            isize::MAX,
            isize::MIN
        )
    );
}
