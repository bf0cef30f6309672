use corerust::crust::capalloc::{init_cslots, SlotAllocator};
use corerust::crust::device;
use corerust::crust::device::Devices;
use corerust::crust::vspace::{free_vregion, RegionAllocator, VRegion};
use corerust::drivers::bits::{u16_to_u8, u32_to_u16, u32_to_u8};
use corerust::drivers::ioport;
use corerust::drivers::irq;
use corerust::drivers::irq::IRQManager;
use corerust::drivers::keyboard;
use corerust::drivers::keyboard::{PS2Controller, PS2Handler, PS2HandlerState};
use corerust::drivers::serial::{com1, com2, com3, com4, HardwareSerial};
use corerust::drivers::vga::{Color, VGAOutput, VGA};
use corerust::kobject::{CapRange, CapSlot, PageTables, Untyped};
use corerust::mantle::kernel;
use corerust::mantle::kernel::{
    bytes_of_bits, messageinfo_get_label, messageinfo_new, KError, ObjectType, UntypedDesc,
};
use corerust::mantle::kio::{Syscalls, Machine};
use corerust::memory::heap::{
    alloc_fix, dealloc_fix, init_allocator, DynamicAllocator, FixedAllocator, Heap,
    RecycleAllocator,
};
use corerust::memory::malloc;
use corerust::memory::smalluntyped::FragmentAllocator;
use corerust::memory::string::StringBuilder;
use corerust::memory::untyped::UntypedAllocator;

/// One system call that the library made.
#[derive(Debug, Clone, PartialEq)]
struct Call {
    syscall: isize,
    dest: usize,
    label: u32,
    length: u32,
    mrs: [usize; 6],
    cap0: usize,
}

/// A kernel that answers as scripted and keeps what it was asked.
struct Mock {
    caps: [usize; 3],
    mrs: [usize; 120],
    calls: Vec<Call>,
    /// replies by label, used first to last; where none is left the kernel agrees
    script: Vec<(u32, u32)>,
    /// the words that waiting on a notification delivers, first to last
    words: Vec<usize>,
    /// the bytes that reading an I/O port delivers, first to last
    port_reads: Vec<u8>,
    port_writes: Vec<(u16, u8)>,
    faults: Vec<KError>,
}

impl Mock {
    fn new() -> Mock {
        Mock {
            caps: [0; 3],
            mrs: [0; 120],
            calls: Vec::new(),
            script: Vec::new(),
            words: Vec::new(),
            port_reads: Vec::new(),
            port_writes: Vec::new(),
            faults: Vec::new(),
        }
    }

    fn refuse(&mut self, label: u32, err: KError) {
        self.script.push((label, err.code()));
    }

    fn labels(&self) -> Vec<u32> {
        self.calls.iter().map(|c| c.label).collect()
    }

    fn count(&self, label: u32) -> usize {
        self.calls.iter().filter(|c| c.label == label).count()
    }
}

impl Syscalls for Mock {
    fn set_cap(&mut self, i: u32, cptr: usize) {
        self.caps[i as usize] = cptr;
    }

    fn set_mr(&mut self, i: u32, mr: usize) {
        self.mrs[i as usize] = mr;
    }

    fn get_mr(&mut self, i: u32) -> usize {
        self.mrs[i as usize]
    }

    fn sys_send(&mut self, syscall: isize, dest: usize, info: usize, mr0: usize, mr1: usize, mr2: usize, mr3: usize) {
        self.calls.push(Call {
            syscall,
            dest,
            label: (info >> 12) as u32,
            length: (info & 0x7f) as u32,
            mrs: [mr0, mr1, mr2, mr3, 0, 0],
            cap0: self.caps[0],
        });
    }

    fn sys_reply(&mut self, syscall: isize, info: usize, mr0: usize, mr1: usize, mr2: usize, mr3: usize) {
        self.sys_send(syscall, 0, info, mr0, mr1, mr2, mr3);
    }

    fn sys_send_null(&mut self, syscall: isize, dest: usize, info: usize) {
        self.sys_send(syscall, dest, info, 0, 0, 0, 0);
    }

    fn sys_recv(&mut self, syscall: isize, src: usize) -> (usize, usize, usize, usize, usize, usize) {
        self.sys_send(syscall, src, 0, 0, 0, 0, 0);
        let word = if self.words.is_empty() { 0 } else { self.words.remove(0) };
        (word, 0, 0, 0, 0, 0)
    }

    fn sys_send_recv(
        &mut self,
        syscall: isize,
        dest: usize,
        info: usize,
        mr0: usize,
        mr1: usize,
        mr2: usize,
        mr3: usize,
    ) -> (usize, usize, usize, usize, usize, usize) {
        let label = (info >> 12) as u32;
        self.calls.push(Call {
            syscall,
            dest,
            label,
            length: (info & 0x7f) as u32,
            mrs: [mr0, mr1, mr2, mr3, self.mrs[4], self.mrs[5]],
            cap0: self.caps[0],
        });
        let mut code = 0;
        if let Some(at) = self.script.iter().position(|s| s.0 == label) {
            code = self.script.remove(at).1;
        }
        let mut out0 = 0;
        if label == kernel::TAG_X86_IOPORT_IN8 {
            out0 = if self.port_reads.is_empty() { 0 } else { self.port_reads.remove(0) as usize };
        }
        if label == kernel::TAG_X86_IOPORT_OUT8 {
            self.port_writes.push((mr0 as u16, mr1 as u8));
        }
        (0, (code as usize) << 12, out0, 0, 0, 0)
    }

    fn sys_null(&mut self, syscall: isize) {
        self.sys_send(syscall, 0, 0, 0, 0, 0, 0);
    }

    fn fault(&mut self, err: KError) {
        self.faults.push(err);
    }
}

fn seeded(start: usize, end: usize) -> SlotAllocator {
    let mut a = SlotAllocator::new();
    init_cslots(&mut a, CapRange::range(start, end));
    a
}

fn free_slot_count(a: &SlotAllocator) -> usize {
    let mut n = 0;
    let mut i = 0;
    while let Some(r) = a.range_at(i) {
        n += r.1 - r.0;
        i += 1;
    }
    n
}

fn pool_of_pages(first_slot: usize, count: usize) -> UntypedAllocator {
    let mut a = UntypedAllocator::new();
    for i in (0..count).rev() {
        a.add_small_page(Untyped::from_cap(CapSlot::from_index(first_slot + i).assert_populated(), 12));
    }
    a
}

struct World {
    k: Machine<Mock>,
    slots: SlotAllocator,
    pages: UntypedAllocator,
    fragments: FragmentAllocator,
    tables: PageTables,
    vspace: RegionAllocator,
    devices: Devices,
}

fn world() -> World {
    let mut vspace = RegionAllocator::new();
    free_vregion(&mut vspace, VRegion::new(0x1000_0000, 0x4000_0000));
    let mut list = [UntypedDesc { paddr: 0, padding1: 0, padding2: 0, size_bits: 0, is_device: 0 }; 230];
    list[0] = UntypedDesc { paddr: 0xB8000, padding1: 0, padding2: 0, size_bits: 12, is_device: 1 };
    World {
        k: Machine::new(Mock::new()),
        slots: seeded(1000, 4000),
        pages: pool_of_pages(100, 40),
        fragments: FragmentAllocator::new(),
        tables: PageTables::new(),
        vspace,
        devices: device::init_untyped(CapRange::range(900, 901), &list),
    }
}

#[test]
fn error_codes() {
    let all = [
        KError::NoError,
        KError::InvalidArgument,
        KError::InvalidCapability,
        KError::IllegalOperation,
        KError::RangeError,
        KError::AlignmentError,
        KError::FailedLookup,
        KError::TruncatedMessage,
        KError::DeleteFirst,
        KError::RevokeFirst,
        KError::NotEnoughMemory,
        KError::UnknownError,
    ];
    for (code, err) in all.iter().enumerate() {
        assert_eq!(KError::from_code(code as u32), *err);
        assert_eq!(err.code(), code as u32);
        assert_eq!(err.is_error(), code != 0);
        assert_eq!(err.is_okay(), code == 0);
        assert_eq!(err.to_result(), if code == 0 { Ok(()) } else { Err(*err) });
    }
    assert_eq!(KError::from_code(12), KError::UnknownError);
    assert_eq!(KError::from_code(u32::MAX), KError::UnknownError);
}

#[test]
fn kernel_constants() {
    assert_eq!((kernel::CAP_INIT_CNODE, kernel::CAP_INIT_VSPACE, kernel::CAP_INIT_IRQCONTROL), (2, 3, 4));
    assert_eq!((kernel::CAP_INIT_ASIDCONTROL, kernel::CAP_INIT_ASIDPOOL, kernel::CAP_INIT_IOPORT), (5, 6, 7));
    assert_eq!((kernel::TAG_UNTYPED_RETYPE, kernel::TAG_CNODE_DELETE), (1, 15));
    assert_eq!((kernel::TAG_X86_PAGE_MAP, kernel::TAG_X86_PAGE_UNMAP), (37, 39));
    assert_eq!((kernel::TAG_X86_PAGETABLE_MAP, kernel::TAG_X86_PAGETABLE_UNMAP), (33, 34));
    assert_eq!((kernel::TAG_X86_IOPORT_IN8, kernel::TAG_X86_IOPORT_OUT8), (44, 47));
    assert_eq!((kernel::TAG_IRQ_ISSUE_IRQ_HANDLER, kernel::TAG_IRQ_ACK_IRQ), (23, 24));
    assert_eq!((kernel::TAG_IRQ_SET_IRQ_HANDLER, kernel::TAG_IRQ_CLEAR_IRQ_HANDLER), (25, 26));
    assert_eq!((kernel::SYS_CALL, kernel::SYS_REPLY_RECV, kernel::SYS_SEND, kernel::SYS_NBSEND), (-1, -2, -3, -4));
    assert_eq!((kernel::SYS_RECV, kernel::SYS_YIELD, kernel::SYS_NBRECV, kernel::SYS_DEBUG_PUTCHAR), (-5, -7, -8, -9));
    assert_eq!((kernel::PAGE_4K_SIZE, kernel::PAGE_2M_SIZE), (1 << kernel::PAGE_4K_BITS, 1 << kernel::PAGE_2M_BITS));
    assert_eq!((ObjectType::UntypedObject.code(), ObjectType::NotificationObject.code()), (0, 3));
    assert_eq!((ObjectType::X864K.code(), ObjectType::X86PageTableObject.code()), (7, 9));
    assert_eq!((bytes_of_bits(0), bytes_of_bits(12), bytes_of_bits(28)), (1, 4096, 0x1000_0000));
}

#[test]
fn message_info_packing() {
    assert_eq!(messageinfo_new(1, 0, 1, 6), (1 << 12) | (1 << 7) | 6);
    assert_eq!(messageinfo_new(0xfffff, 7, 3, 0x7f), 0xffff_ffff);
    assert_eq!(messageinfo_new(0, 0, 0, 0), 0);
    assert_eq!(messageinfo_new(37, 5, 0, 3), 37 * 4096 + 5 * 512 + 3);
    assert_eq!(messageinfo_get_label(messageinfo_new(37, 5, 2, 3)), 37);
    assert_eq!(messageinfo_get_label(0xffff_ffff), 0xfffff);
    assert_eq!(messageinfo_get_label(0xfff), 0);
}

#[test]
fn splitting_numbers_in_bytes() {
    assert_eq!(u32_to_u16(0x1234_5678), (0x5678, 0x1234));
    assert_eq!(u32_to_u8(0x1234_5678), (0x78, 0x56, 0x34, 0x12));
    assert_eq!(u16_to_u8(0xABCD), (0xCD, 0xAB));
    assert_eq!(u32_to_u8(0), (0, 0, 0, 0));
    assert_eq!(u32_to_u16(u32::MAX), (0xffff, 0xffff));
}

#[test]
fn heap_recycles_the_freed_block() {
    let mut w = world();
    let mut heap = Heap::new(0x50_0000);
    let p = alloc_fix(&mut heap, 32, &mut w.pages, &mut w.slots, &mut w.tables, &mut w.k).unwrap();
    assert_eq!(p, 0x50_0000);
    dealloc_fix(&mut heap, p, 32);
    let q = alloc_fix(&mut heap, 32, &mut w.pages, &mut w.slots, &mut w.tables, &mut w.k).unwrap();
    assert_eq!(p, q);
    // same size class: 25 to 32 bytes are four words
    dealloc_fix(&mut heap, q, 32);
    let r = alloc_fix(&mut heap, 25, &mut w.pages, &mut w.slots, &mut w.tables, &mut w.k).unwrap();
    assert_eq!(r, p);
    // another class goes to the arena
    let s = alloc_fix(&mut heap, 24, &mut w.pages, &mut w.slots, &mut w.tables, &mut w.k).unwrap();
    assert_eq!(s, 0x50_0000 + 32);
    assert_eq!(heap.fixed.used_words(), 7);
    // last freed, first out
    dealloc_fix(&mut heap, r, 32);
    dealloc_fix(&mut heap, 0x77_0000, 32);
    assert_eq!(alloc_fix(&mut heap, 32, &mut w.pages, &mut w.slots, &mut w.tables, &mut w.k), Some(0x77_0000));
    assert_eq!(alloc_fix(&mut heap, 32, &mut w.pages, &mut w.slots, &mut w.tables, &mut w.k), Some(p));
    assert!(w.k.inner().calls.is_empty());
}

#[test]
fn fixed_arena_runs_out() {
    let mut arena = FixedAllocator::new(0x1000);
    assert_eq!(arena.alloc_fixblks(255), Some(0x1000));
    assert_eq!(arena.alloc_fixblks(1), Some(0x1000 + 255 * 8));
    let mut n = 0;
    while arena.alloc_fixblks(255).is_some() {
        n += 1;
    }
    assert_eq!(n, (8192 - 256) / 255);
    assert_eq!(arena.used_words(), 256 + n * 255);
    assert_eq!(arena.alloc_fixblks(255), None);
    let left = 8192 - arena.used_words();
    assert_eq!(arena.alloc_fixblks(left as u8), Some(0x1000 + (8192 - left) * 8));
    assert_eq!(arena.alloc_fixblks(1), None);
    let mut recycle = RecycleAllocator::new();
    assert_eq!(recycle.alloc_fixblks(1), None);
    recycle.dealloc_fixblks(0x40, 255);
    recycle.dealloc_fix(0x80, 2040);
    assert_eq!(recycle.alloc_fixblks(254), None);
    assert_eq!((recycle.alloc_fixblks(255), recycle.alloc_fixblks(255), recycle.alloc_fixblks(255)), (Some(0x80), Some(0x40), None));
}

fn drained_heap(w: &mut World) -> Heap {
    let mut heap = Heap::new(0x50_0000);
    while heap.fixed.alloc_fixblks(255).is_some() {}
    while heap.fixed.alloc_fixblks(1).is_some() {}
    init_allocator(&mut heap, &mut w.vspace).unwrap();
    heap
}

#[test]
fn growing_arena_maps_frames_with_slack() {
    let mut w = world();
    let mut heap = Heap::new(0x50_0000);
    while heap.fixed.alloc_fixblks(255).is_some() {}
    while heap.fixed.alloc_fixblks(1).is_some() {}
    // without the growing arena the heap is exhausted
    assert_eq!(alloc_fix(&mut heap, 8, &mut w.pages, &mut w.slots, &mut w.tables, &mut w.k), None);
    init_allocator(&mut heap, &mut w.vspace).unwrap();
    assert_eq!(w.vspace.region_at(0), Some((0x2000_0000, 0x4000_0000)));
    let p = alloc_fix(&mut heap, 16, &mut w.pages, &mut w.slots, &mut w.tables, &mut w.k).unwrap();
    assert_eq!(p, 0x1000_0000);
    // sixteen bytes are out, and frames are mapped up to eight pages beyond them
    assert_eq!(heap.dynamic.as_ref().unwrap().marks(), (16, 9 * 4096));
    assert_eq!(w.k.inner().count(kernel::TAG_X86_PAGE_MAP), 9);
    assert_eq!(w.pages.counts(), (31, 0));
    let maps: Vec<usize> = w.k.inner().calls.iter().filter(|c| c.label == 37).map(|c| c.mrs[0]).collect();
    assert_eq!(maps, (0..9).map(|i| 0x1000_0000 + i * 4096).collect::<Vec<usize>>());
    let q = alloc_fix(&mut heap, 2040, &mut w.pages, &mut w.slots, &mut w.tables, &mut w.k).unwrap();
    assert_eq!(q, 0x1000_0000 + 16);
    assert_eq!(heap.dynamic.as_ref().unwrap().marks(), (16 + 2040, 9 * 4096));
    assert_eq!(w.k.inner().count(kernel::TAG_X86_PAGE_MAP), 9);
}

#[test]
fn growing_arena_keeps_its_slack_across_a_missing_page_table() {
    let mut w = world();
    let mut heap = drained_heap(&mut w);
    // the kernel misses a page table for the first frame: one is made, and the arena grows on
    w.k.inner_mut().refuse(kernel::TAG_X86_PAGE_MAP, KError::FailedLookup);
    let before = free_slot_count(&w.slots);
    assert_eq!(alloc_fix(&mut heap, 16, &mut w.pages, &mut w.slots, &mut w.tables, &mut w.k), Some(0x1000_0000));
    assert_eq!(heap.dynamic.as_ref().unwrap().marks(), (16, 9 * 4096));
    assert_eq!(w.tables.len(), 1);
    assert_eq!(w.k.inner().count(kernel::TAG_X86_PAGE_MAP), 10);
    assert_eq!(w.k.inner().count(kernel::TAG_X86_PAGETABLE_MAP), 1);
    assert_eq!((w.pages.counts(), free_slot_count(&w.slots)), ((30, 0), before - 10));
    // a frame that cannot be mapped goes back: its slot and its untyped are free again
    let mut w = world();
    let mut heap = drained_heap(&mut w);
    w.k.inner_mut().refuse(kernel::TAG_X86_PAGE_MAP, KError::InvalidArgument);
    let before = (w.pages.counts(), free_slot_count(&w.slots));
    assert_eq!(alloc_fix(&mut heap, 16, &mut w.pages, &mut w.slots, &mut w.tables, &mut w.k), None);
    assert_eq!((w.pages.counts(), free_slot_count(&w.slots)), before);
    assert_eq!(heap.dynamic.as_ref().unwrap().marks(), (0, 0));
    assert_eq!(w.k.inner().calls.last().unwrap().label, kernel::TAG_CNODE_DELETE);
}

#[test]
fn growing_arena_lives_on_slack_when_frames_run_out() {
    let mut w = world();
    w.pages = pool_of_pages(100, 2);
    let mut heap = drained_heap(&mut w);
    // two frames only: less than the slack asked for, but enough for the block
    assert_eq!(alloc_fix(&mut heap, 2040, &mut w.pages, &mut w.slots, &mut w.tables, &mut w.k), Some(0x1000_0000));
    assert_eq!(heap.dynamic.as_ref().unwrap().marks(), (2040, 2 * 4096));
    for i in 1..4 {
        assert_eq!(alloc_fix(&mut heap, 2040, &mut w.pages, &mut w.slots, &mut w.tables, &mut w.k), Some(0x1000_0000 + i * 2040));
    }
    // the fifth block would end beyond the second frame
    let slots_before = free_slot_count(&w.slots);
    assert_eq!(alloc_fix(&mut heap, 2040, &mut w.pages, &mut w.slots, &mut w.tables, &mut w.k), None);
    assert_eq!(heap.dynamic.as_ref().unwrap().marks(), (4 * 2040, 2 * 4096));
    assert_eq!(free_slot_count(&w.slots), slots_before);
    assert_eq!(alloc_fix(&mut heap, 32, &mut w.pages, &mut w.slots, &mut w.tables, &mut w.k), Some(0x1000_0000 + 4 * 2040));
}

#[test]
fn growing_arena_needs_address_space() {
    let mut small = RegionAllocator::new();
    free_vregion(&mut small, VRegion::new(0x1000, 0x1000_0000));
    assert_eq!(DynamicAllocator::new(&mut small).err(), Some(KError::NotEnoughMemory));
    assert_eq!(small.region_at(0), Some((0x1000, 0x1000_0000)));
    let mut heap = Heap::new(0);
    assert_eq!(init_allocator(&mut heap, &mut small), Err(KError::NotEnoughMemory));
    assert!(heap.dynamic.is_none());
}

#[test]
fn malloc_marks_lengths() {
    let mut w = world();
    let mut heap = Heap::new(0x50_0000);
    assert_eq!(malloc::header_for(0), 0x737A_2007_37A2_0008);
    assert_eq!(malloc::header_for(2032), 0x737A_2007_37A2_0000 + 2040);
    assert_eq!(malloc::get_len(0x737A_2007_37A2_0008), 0);
    assert_eq!(malloc::get_len(malloc::header_for(100)), 100);
    let (p, header) = malloc::malloc(&mut heap, 100, &mut w.pages, &mut w.slots, &mut w.tables, &mut w.k).unwrap();
    assert_eq!((p, header), (0x50_0008, 0x737A_2007_37A2_0000 + 108));
    assert_eq!(heap.fixed.used_words(), 14);
    malloc::free(&mut heap, p, header);
    let (q, _) = malloc::malloc(&mut heap, 97, &mut w.pages, &mut w.slots, &mut w.tables, &mut w.k).unwrap();
    assert_eq!(q, p);
    let (r, header, kept) = malloc::realloc(&mut heap, q, malloc::header_for(97), 10, &mut w.pages, &mut w.slots, &mut w.tables, &mut w.k).unwrap();
    assert_eq!((r, header, kept), (0x50_0008 + 112, malloc::header_for(10), 10));
    let (s, _, kept) = malloc::realloc(&mut heap, r, header, 500, &mut w.pages, &mut w.slots, &mut w.tables, &mut w.k).unwrap();
    assert_eq!(kept, 10);
    assert!(s > r);
}

#[test]
fn string_builder_adds_characters_in_utf8() {
    let mut sb = StringBuilder::new();
    for c in ['a', '\u{e9}', '\u{20ac}', '\u{1f600}', '\u{7f}', '\u{80}', '\u{7ff}', '\u{800}', '\u{ffff}', '\u{10000}'] {
        sb.add_char(c);
    }
    assert!(!sb.is_truncated());
    let s = sb.to_str().unwrap();
    assert_eq!(s.as_bytes().as_slice(), "a\u{e9}\u{20ac}\u{1f600}\u{7f}\u{80}\u{7ff}\u{800}\u{ffff}\u{10000}".as_bytes());
    assert_eq!(&s.as_bytes()[..10], &[0x61, 0xC3, 0xA9, 0xE2, 0x82, 0xAC, 0xF0, 0x9F, 0x98, 0x80][..]);
}

#[test]
fn string_builder_appends_and_truncates() {
    let mut sb = StringBuilder::new();
    sb.add_u8(b'a');
    sb.add_bytes(b"bc");
    sb.add_str("de");
    assert!(!sb.is_truncated());
    let s = sb.to_str().unwrap();
    assert_eq!((s.as_bytes().as_slice(), s.len()), (&b"abcde"[..], 5));
    let mut sb = StringBuilder::new();
    for _ in 0..2032 {
        sb.add_u8(b'x');
    }
    assert!(!sb.is_truncated());
    sb.add_u8(b'y');
    assert!(sb.is_truncated());
    assert_eq!(sb.to_str().unwrap().len(), 2032);
    // what does not fit whole is cut to what a full string leaves for it
    let mut sb = StringBuilder::new();
    sb.add_bytes(&[1u8; 1000][..]);
    sb.add_bytes(&[2u8; 1500][..]);
    assert!(sb.is_truncated());
    let s = sb.to_str().unwrap();
    assert_eq!(s.len(), 1000 + (2032 - 1500));
    assert_eq!((s.as_bytes()[999], s.as_bytes()[1000], s.as_bytes()[1531]), (1, 2, 2));
}

#[test]
fn irq_lines_are_called_in_ascending_order() {
    let mut w = world();
    let mut manager = IRQManager::new(&mut w.fragments, &mut w.pages, &mut w.slots, &mut w.k).unwrap();
    let keyboard = manager.request(1, &mut w.slots, &mut w.k).unwrap();
    let mouse = manager.request(12, &mut w.slots, &mut w.k).unwrap();
    assert_eq!((keyboard.line(), mouse.line()), (1, 12));
    let gets: Vec<(usize, usize, usize)> =
        w.k.inner().calls.iter().filter(|c| c.label == 23).map(|c| (c.mrs[0], c.mrs[1], c.mrs[2])).collect();
    assert_eq!(gets, vec![(1, keyboard.slot(), 64), (12, mouse.slot(), 64)]);
    assert_eq!(w.k.inner().count(kernel::TAG_IRQ_SET_IRQ_HANDLER), 2);
    assert_eq!(w.k.inner().calls.iter().find(|c| c.label == 23).unwrap().dest, 4);
    mouse.set_cb(&mut manager);
    keyboard.set_cb(&mut manager);
    assert_eq!(manager.on_word(0b1_0000_0000_0010), vec![1, 12]);
    assert_eq!(manager.on_word(0b10), vec![1]);
    assert_eq!(manager.on_word(0), Vec::<u32>::new());
    // a line without callback is skipped
    assert_eq!(manager.on_word(0b1_0000_0000_0111), vec![1, 12]);
    assert_eq!((manager.on_bit(1), manager.on_bit(2), manager.on_bit(12)), (true, false, true));
    w.k.inner_mut().words = vec![0b1_0000_0000_0010, 1 << 12, 1 << 40];
    assert_eq!(manager.wait_for_lines(&mut w.k), vec![1, 12]);
    assert_eq!(manager.wait_for_lines(&mut w.k), vec![12]);
    assert_eq!(manager.wait_for_lines(&mut w.k), Vec::<u32>::new());
    assert!(keyboard.ack(&mut w.k).is_ok());
    keyboard.clear_cb(&mut manager);
    assert_eq!(manager.on_word(0b1_0000_0000_0010), vec![12]);
    assert!(!manager.is_active(1) && manager.is_active(12));
    keyboard.set_cb(&mut manager);
    let free_before = free_slot_count(&w.slots);
    keyboard.free(&mut manager, &mut w.slots, &mut w.k);
    assert_eq!(free_slot_count(&w.slots), free_before + 1);
    assert!(!manager.is_active(1));
    assert_eq!(manager.on_word(u32::MAX as usize), vec![12]);
    manager.clear_callback(12);
    manager.set_callback(31);
    manager.set_callback(0);
    assert_eq!(manager.on_word(u32::MAX as usize), vec![0, 31]);
    assert!(w.k.inner().faults.is_empty());
    let _ = mouse;
}

#[test]
fn irq_manager_is_made_on_first_use() {
    let mut w = world();
    let mut manager: Option<IRQManager> = None;
    let line = irq::request(&mut manager, 5, &mut w.fragments, &mut w.pages, &mut w.slots, &mut w.k).unwrap();
    assert_eq!(line.line(), 5);
    assert!(manager.is_some());
    let retypes = w.k.inner().count(kernel::TAG_UNTYPED_RETYPE);
    assert!(irq::get_manager(&mut manager, &mut w.fragments, &mut w.pages, &mut w.slots, &mut w.k).is_ok());
    assert_eq!(w.k.inner().count(kernel::TAG_UNTYPED_RETYPE), retypes);
    w.k.inner_mut().refuse(kernel::TAG_IRQ_ISSUE_IRQ_HANDLER, KError::RevokeFirst);
    let before = free_slot_count(&w.slots);
    assert_eq!(irq::request(&mut manager, 6, &mut w.fragments, &mut w.pages, &mut w.slots, &mut w.k).err(), Some(KError::RevokeFirst));
    assert_eq!(free_slot_count(&w.slots), before);
    let mut none: Option<IRQManager> = None;
    let mut no_pages = UntypedAllocator::new();
    assert_eq!(
        irq::get_manager(&mut none, &mut w.fragments, &mut no_pages, &mut SlotAllocator::new(), &mut w.k),
        Err(KError::NotEnoughMemory)
    );
    assert!(none.is_none());
}

#[test]
fn vga_cells_and_colours() {
    let mut w = world();
    let mut vga = VGA::vga_default_port(&mut w.devices, &mut w.slots, &mut w.vspace, &mut w.pages, &mut w.tables, &mut w.k).unwrap();
    assert_eq!(vga.mapping().get_addr(), 0x1000_0000);
    vga.put_raw_char(3, 2, b'A', Color::LightRed, Color::LightBlue, true);
    vga.put_char(79, 24, b'z');
    let i = (3 + 2 * 80) * 2;
    assert_eq!((vga.byte_at(i), vga.byte_at(i + 1)), (b'A', 12 | (1 << 4) | 0x80));
    assert_eq!((vga.byte_at(3998), vga.byte_at(3999)), (b'z', 15));
    assert_eq!((vga.byte_at(0), vga.byte_at(i + 2)), (0, 0));
    assert_eq!((Color::Black.code(), Color::White.code(), Color::Brown.code()), (0, 15, 6));
    vga.release(&mut w.devices, &mut w.slots, &mut w.vspace, &mut w.k);
    assert_eq!(w.vspace.region_at(0), Some((0x1000_0000, 0x4000_0000)));
    assert_eq!(
        VGA::vga_port(0xA0000, &mut w.devices, &mut w.slots, &mut w.vspace, &mut w.pages, &mut w.tables, &mut w.k).err(),
        Some(KError::FailedLookup)
    );
}

#[test]
fn vga_terminal_moves_the_cursor() {
    let mut w = world();
    let mut out = VGAOutput::default(&mut w.devices, &mut w.slots, &mut w.vspace, &mut w.pages, &mut w.tables, &mut w.k).unwrap();
    assert_eq!(out.cursor(), (0, 0));
    out.put_string("ab\ncd\rC");
    assert_eq!(out.cursor(), (1, 1));
    assert_eq!((out.byte_at(0), out.byte_at(1), out.byte_at(2)), (b'a', 15, b'b'));
    assert_eq!((out.byte_at(160), out.byte_at(162)), (b'C', b'd'));
    out.put_rchar('\u{20ac}');
    assert_eq!((out.byte_at(162), out.cursor()), (b'?', (2, 1)));
    out.put_rchar('\u{e9}');
    assert_eq!(out.byte_at(164), 0xe9);
    // the last column wraps to the next line
    out.move_cursor(79, 3);
    out.put_char(b'w');
    assert_eq!((out.byte_at((79 + 3 * 80) * 2), out.cursor()), (b'w', (0, 4)));
    // the last line scrolls
    out.move_cursor(5, 24);
    out.put_char(b'q');
    out.next_line();
    assert_eq!(out.cursor(), (0, 24));
    assert_eq!((out.byte_at((5 + 23 * 80) * 2), out.byte_at((5 + 24 * 80) * 2)), (b'q', 0));
    assert_eq!((out.byte_at(0), out.byte_at(2)), (b'C', b'?'));
    let mut screen = out.into_screen();
    screen.scroll_up_one_line();
    assert_eq!(screen.byte_at((5 + 22 * 80) * 2), b'q');
    screen.clear_screen();
    assert!((0..4000).all(|i| screen.byte_at(i) == 0));
}

#[test]
fn io_ports() {
    let mut k = Machine::new(Mock::new());
    let set = ioport::request(0x3f8, 8);
    let mut data = set.get(0);
    let status = set.get(5);
    data.set(0x41, &mut k);
    k.inner_mut().port_reads = vec![0x61];
    assert_eq!(status.get(&mut k), 0x61);
    assert_eq!(k.inner().port_writes, vec![(0x3f8, 0x41)]);
    assert_eq!(k.inner().calls[1].mrs[0], 0x3fd);
    assert!(k.inner().calls.iter().all(|c| c.dest == 7));
    k.inner_mut().refuse(kernel::TAG_X86_IOPORT_IN8, KError::IllegalOperation);
    let _ = ioport::request_one(0x60).get(&mut k);
    assert_eq!(k.inner().faults, vec![KError::IllegalOperation]);
}

#[test]
fn serial_port_setup_and_traffic() {
    let mut k = Machine::new(Mock::new());
    let mut port = com1().configure(9600, &mut k);
    assert_eq!(HardwareSerial::divisor(9600), 12);
    assert_eq!(HardwareSerial::divisor(115200), 1);
    assert_eq!(HardwareSerial::divisor(1), (115200 % 65536) as u16);
    assert_eq!(
        k.inner().port_writes,
        vec![(0x3f9, 0x00), (0x3fb, 0x80), (0x3f8, 12), (0x3f8, 0), (0x3fb, 0x03), (0x3fa, 0xC7), (0x3fc, 0x0B)]
    );
    k.inner_mut().port_writes.clear();
    // not ready twice, then ready
    k.inner_mut().port_reads = vec![0, 0, 0x20];
    assert!(port.send(b'x', 5, &mut k));
    assert_eq!(k.inner().port_writes, vec![(0x3f8, b'x')]);
    k.inner_mut().port_reads = vec![0, 0, 0];
    assert!(!port.send(b'x', 3, &mut k));
    assert!(!port.send(b'x', 0, &mut k));
    k.inner_mut().port_reads = vec![0x01, 0x55];
    assert_eq!(port.recv(1, &mut k), Some(0x55));
    assert_eq!(port.recv(4, &mut k), None);
    k.inner_mut().port_reads = vec![0x01, b'h', 0x01, b'i', 0x01, 13, 0x01, b'!'];
    let line = port.recv_line(1, &mut k).unwrap();
    assert_eq!(line.as_bytes().as_slice(), &b"hi"[..]);
    assert_eq!(port.recv_char(1, &mut k), Some('!'));
    assert!(port.recv_line(2, &mut k).is_none());
    k.inner_mut().port_writes.clear();
    k.inner_mut().port_reads = vec![0x20; 3];
    assert!(port.send_str("a\u{20ac}b", 1, &mut k));
    assert_eq!(k.inner().port_writes, vec![(0x3f8, b'a'), (0x3f8, b'?'), (0x3f8, b'b')]);
    assert!(!port.send_str("c", 1, &mut k));
    assert!(port.send_str("", 0, &mut k));
    assert_eq!((HardwareSerial::char_byte('\u{ff}'), HardwareSerial::char_byte('\u{100}')), (0xff, b'?'));
    k.inner_mut().port_reads = vec![0x21, 0x21];
    assert!(port.recv_ready(&mut k) && port.send_ready(&mut k));
    k.inner_mut().port_writes.clear();
    let _ = (com2().configure(115200, &mut k), com3().configure(115200, &mut k), com4().configure(115200, &mut k));
    let firsts: Vec<u16> = k.inner().port_writes.iter().step_by(7).map(|w| w.0 - 1).collect();
    assert_eq!(firsts, vec![0x2f8, 0x3e8, 0x2e8]);
}

#[test]
fn keyboard_device_is_recognised_step_by_step() {
    let mut h = PS2Handler::create(false);
    assert_eq!(h.state(), PS2HandlerState::PreReset);
    assert_eq!((h.on_byte(0xAA), h.state()), (None, PS2HandlerState::PreReset));
    let mut k = Machine::new(Mock::new());
    let mut ctrl = working_controller(&mut k);
    assert_eq!(ctrl.get_works(), (true, false));
    k.inner_mut().port_writes.clear();
    k.inner_mut().port_reads = vec![0x02; 16];
    assert!(h.init(&mut ctrl, 1, &mut k));
    assert_eq!((h.state(), k.inner().port_writes.clone()), (PS2HandlerState::SentReset, vec![(0x60, 0xFF)]));
    let steps: [(u8, Option<u8>, PS2HandlerState); 6] = [
        (0xAA, None, PS2HandlerState::SelfTestPassed),
        (0xFA, Some(0xF5), PS2HandlerState::SentDisableScan),
        (0xFA, Some(0xF2), PS2HandlerState::SentIdentify),
        (0xAB, None, PS2HandlerState::PartialIdentify),
        (0x83, Some(0xEE), PS2HandlerState::FoundKeyboard),
        (0xEE, None, PS2HandlerState::GotEcho),
    ];
    for (byte, command, state) in steps.iter() {
        k.inner_mut().port_writes.clear();
        assert!(h.on_recv(*byte, &mut ctrl, 1, &mut k));
        assert_eq!(h.state(), *state);
        assert_eq!(k.inner().port_writes, command.iter().map(|c| (0x60, *c)).collect::<Vec<(u16, u8)>>());
    }
    assert_eq!((h.on_byte(0x12), h.state()), (None, PS2HandlerState::GotEcho));
}

#[test]
fn keyboard_device_failures() {
    let wrong: [(Vec<u8>, PS2HandlerState); 6] = [
        (vec![0x00], PS2HandlerState::FailedInit),
        (vec![0xAA, 0x00], PS2HandlerState::FailedInit),
        (vec![0xAA, 0xFA, 0xFE], PS2HandlerState::FailedInit),
        (vec![0xAA, 0xFA, 0xFA, 0x00], PS2HandlerState::IgnoredDevice),
        (vec![0xAA, 0xFA, 0xFA, 0xAB, 0x00], PS2HandlerState::IgnoredDevice),
        (vec![0xAA, 0xFA, 0xFA, 0xAB, 0x41, 0x00], PS2HandlerState::FailedInit),
    ];
    for (bytes, end) in wrong.iter() {
        let mut k = Machine::new(Mock::new());
        let mut ctrl = working_controller(&mut k);
        let mut h = PS2Handler::create(false);
        k.inner_mut().port_reads = vec![0x02; 64];
        h.init(&mut ctrl, 1, &mut k);
        for b in bytes {
            h.on_recv(*b, &mut ctrl, 1, &mut k);
        }
        assert_eq!(h.state(), *end);
        assert_eq!((h.on_byte(0xAA), h.state()), (None, *end));
    }
    let mut h = PS2Handler::create(true);
    let mut k = Machine::new(Mock::new());
    let mut ctrl = dual_controller(&mut k);
    assert_eq!(ctrl.get_works(), (true, true));
    k.inner_mut().port_writes.clear();
    k.inner_mut().port_reads = vec![0x02; 16];
    assert!(h.init(&mut ctrl, 1, &mut k));
    assert_eq!(k.inner().port_writes, vec![(0x64, 0xD4), (0x60, 0xFF)]);
    h.on_byte(0xAA);
    h.on_byte(0xFA);
    h.on_byte(0xFA);
    h.on_byte(0xAB);
    assert_eq!((h.on_byte(0xC1), h.state()), (Some(0xEE), PS2HandlerState::FoundKeyboard));
}

/// A controller with one working port: every status read says ready, the self test and
/// the port test pass, the second port's clock was never off.
fn working_controller(k: &mut Machine<Mock>) -> PS2Controller {
    k.inner_mut().port_reads = vec![
        0x02, 0x02, // two commands
        0x00, // nothing to flush
        0x02, 0x01, 0x00, // configuration byte
        0x02, 0x02, // write it back
        0x02, 0x01, 0x55, // self test
        0x02, 0x01, 0x00, // first port test
        0x02, 0x02, 0x01, 0x00, 0x02, 0x02, // enable the first port
    ];
    PS2Controller::new(1, k)
}

fn dual_controller(k: &mut Machine<Mock>) -> PS2Controller {
    k.inner_mut().port_reads = vec![
        0x02, 0x02, 0x00, // switched off, nothing to flush
        0x02, 0x01, 0x20, // configuration: second clock off
        0x02, 0x02, // write it back
        0x02, 0x01, 0x55, // self test
        0x02, 0x02, 0x01, 0x00, 0x02, // second port on: its clock runs; off again
        0x02, 0x01, 0x00, // first port test
        0x02, 0x01, 0x00, // second port test
        0x02, 0x02, 0x01, 0x00, 0x02, 0x02, // enable the first port
        0x02, 0x02, 0x01, 0x00, 0x02, 0x02, // enable the second port
    ];
    PS2Controller::new(1, k)
}

#[test]
fn keyboard_controller_setup() {
    let mut k = Machine::new(Mock::new());
    let mut ctrl = working_controller(&mut k);
    assert_eq!(ctrl.get_works(), (true, false));
    let commands: Vec<u8> = k.inner().port_writes.iter().filter(|w| w.0 == 0x64).map(|w| w.1).collect();
    assert_eq!(commands, vec![0xAD, 0xA7, 0x20, 0x60, 0xAA, 0xAB, 0xAE, 0x20, 0x60]);
    let data: Vec<u8> = k.inner().port_writes.iter().filter(|w| w.0 == 0x60).map(|w| w.1).collect();
    assert_eq!(data, vec![0x00, 0x01]);
    // a failed self test, or a controller that never answers
    let mut k = Machine::new(Mock::new());
    k.inner_mut().port_reads = vec![0x02, 0x02, 0x00, 0x02, 0x01, 0x00, 0x02, 0x02, 0x02, 0x01, 0x54];
    assert_eq!(PS2Controller::new(1, &mut k).get_works(), (false, false));
    let mut k = Machine::new(Mock::new());
    assert_eq!(PS2Controller::new(3, &mut k).get_works(), (false, false));
    assert_eq!(PS2Controller::new(0, &mut k).get_works(), (false, false));
    k.inner_mut().port_reads = vec![0x01, 0x1c, 0x00];
    assert_eq!(ctrl.on_port_irq(&mut k), Some(0x1c));
    assert_eq!(ctrl.on_port_irq(&mut k), None);
    k.inner_mut().port_reads = vec![0x02];
    k.inner_mut().port_writes.clear();
    assert!(ctrl.write_port_1(0xED, 1, &mut k));
    k.inner_mut().port_reads = vec![0x02];
    assert!(ctrl.cpu_reset(1, &mut k));
    assert_eq!(k.inner().port_writes, vec![(0x60, 0xED), (0x64, 0xFE)]);
    let mut slot: Option<PS2Controller> = None;
    keyboard::get_and_init_controller(&mut slot, 0, &mut k);
    assert_eq!(slot.as_ref().unwrap().get_works(), (false, false));
    let mut dual = dual_controller(&mut k);
    k.inner_mut().port_reads = vec![0x02; 8];
    let both = keyboard::init(&mut dual, 1, &mut k);
    assert!(both.inited);
    assert_eq!(both.first.unwrap().state(), PS2HandlerState::SentReset);
    assert_eq!(both.second.unwrap().state(), PS2HandlerState::SentReset);
    k.inner_mut().port_reads = vec![0x02, 0x02];
    assert!(dual.write_port_2(0x10, 1, &mut k));
}
