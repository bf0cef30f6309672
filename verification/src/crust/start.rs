//! Startup: the allocators are built from what the kernel hands over.
use vstd::prelude::*;
use crate::mantle::kio::extends;
use crate::kobject::steps::group_record;
use crate::crust::capalloc::{init_cslots, SlotAllocator};
use crate::crust::device;
use crate::crust::device::{devices_in_order, picked_devices, Devices};
use crate::crust::freelist::{first_fit, take_n};
use crate::crust::vspace::{init_vspace, RegionAllocator};
use crate::intervals::Span;
use crate::kobject::{CapRange, PageTables};
use crate::mantle::kernel;
use crate::mantle::kernel::{BootInfo, KError};
use crate::mantle::debug::{
    decimal,
    lemma_printed_join,
    printed,
    put_decimal,
    put_signed,
    put_str,
    signed_decimal,
};
use crate::mantle::kernel::SlotRegion;
use crate::mantle::kio::{Machine, Syscalls};
use vstd::string::StringSliceAdditionalSpecFns;
use crate::memory::heap::{init_allocator, DynamicView, Heap, HEAP_U64, VREGION_SIZE};
use crate::memory::smalluntyped::FragmentAllocator;
use crate::memory::untyped;
use crate::mantle::calls::agreed;
use crate::memory::untyped::{booted, only_pages, picked, sizes_in_range, Pools, UntypedAllocator};

verus! {

broadcast use group_record;

/// Everything that the root task manages: the free slots, the free address space, the
/// untyped memory, the fragments for notifications, the device memory, the page tables
/// mapped along the way, and the heap.
pub struct RootTask {
    pub slots: SlotAllocator,
    pub vspace: RegionAllocator,
    pub untyped: UntypedAllocator,
    pub fragments: FragmentAllocator,
    pub devices: Devices,
    pub tables: PageTables,
    pub heap: Heap,
}

impl RootTask {
    pub open spec fn wf(&self) -> bool {
        &&& self.slots.wf()
        &&& self.vspace.wf()
        &&& self.untyped.wf()
        &&& self.fragments.wf()
        &&& self.devices.wf()
        &&& self.heap.wf()
    }
}

/// The address space that is free at startup: from eight pages above the image up to
/// the kernel's base.
pub open spec fn boot_region(executable_start: usize, image_len: int) -> Span {
    Span { start: executable_start + image_len + 0x8000, end: usize::MAX - 0x7fff_ffff }
}

/// What the boot information must be like for the allocators to be built from it: the
/// range of empty slots holds a slot, the image with eight pages more ends on a page
/// boundary below the kernel's base, there are at most 230 untypeds, those of ordinary
/// memory have from 4K to 128G, and those of device memory are pages or more and come in
/// the order of their addresses.
pub open spec fn boot_ok(bi: &BootInfo, executable_start: usize) -> bool {
    let frames = bi.user_image_frames.end - bi.user_image_frames.start;
    &&& bi.empty.start < bi.empty.end
    &&& bi.user_image_frames.start <= bi.user_image_frames.end
    &&& frames * 0x1000 <= usize::MAX
    &&& (executable_start + frames * 0x1000) % 0x1000 == 0
    &&& executable_start + frames * 0x1000 + 0x8000 < usize::MAX - 0x7fff_ffff
    &&& bi.untyped.start <= bi.untyped.end
    &&& bi.untyped.end - bi.untyped.start <= 230
    &&& sizes_in_range(bi.untyped_list@, bi.untyped.end - bi.untyped.start)
    &&& devices_in_order(bi.untyped_list@, bi.untyped.end - bi.untyped.start)
}

/// The pools of untyped memory and the free slots after the boot untypeds of ordinary
/// memory were added to empty pools, with the range of empty slots free; `None` where
/// the slots do not suffice.
pub open spec fn boot_pools(bi: &BootInfo) -> Option<(Pools, Seq<Span>)> {
    booted(
        bi.untyped_list@,
        bi.untyped.start as int,
        bi.untyped.end - bi.untyped.start,
        Pools { small: Seq::empty(), large: Seq::empty(), stashed: Seq::empty() },
        seq![Span { start: bi.empty.start as int, end: bi.empty.end as int }],
    )
}

/// Builds the root task's allocators from the boot information, in their order: the
/// slots, the address space, the heap's growing arena, the untyped memory, the device
/// memory. `executable_start` is where the image was loaded, `heap_base` where the
/// heap's fixed arena lies.
pub fn set_bootinfo<S: Syscalls>(
    bi: &BootInfo,
    executable_start: usize,
    heap_base: usize,
    k: &mut Machine<S>,
) -> (r: Result<RootTask, KError>)
    requires
        boot_ok(bi, executable_start),
        heap_base + 8 * HEAP_U64 <= usize::MAX,
    ensures
        r matches Ok(task) ==> {
            let count = bi.untyped.end - bi.untyped.start;
            let image_len = (bi.user_image_frames.end - bi.user_image_frames.start) * 0x1000;
            let region = boot_region(executable_start, image_len);
            &&& task.wf()
            &&& task.tables@.len() == 0
            &&& task.fragments@.available.len() == 0
            &&& task.devices@ == picked_devices(bi.untyped_list@, bi.untyped.start as int, 0, count)
            &&& region.len() >= VREGION_SIZE
            &&& task.vspace@ == take_n(seq![region], VREGION_SIZE as int)
            &&& task.heap.dynamic is Some
            &&& task.heap.dynamic.unwrap()@ == (DynamicView {
                region: region.front(VREGION_SIZE as int),
                next_avail: 0,
                next_unalloc: 0,
                pages: Seq::empty(),
                is_recursing: false,
            })
            &&& task.slots.free().subset_of(
                (Span { start: bi.empty.start as int, end: bi.empty.end as int }).points(),
            )
            &&& only_pages(bi.untyped_list@, count) ==> task.slots@ == seq![
                Span { start: bi.empty.start as int, end: bi.empty.end as int },
            ] && task.untyped@ == (Pools {
                small: picked(
                    bi.untyped_list@,
                    bi.untyped.start as int,
                    0,
                    count,
                    kernel::PAGE_4K_BITS,
                ),
                large: picked(
                    bi.untyped_list@,
                    bi.untyped.start as int,
                    0,
                    count,
                    kernel::PAGE_2M_BITS,
                ),
                stashed: Seq::empty(),
            })
        },
        r matches Err(err) ==> err != KError::NoError,
        boot_region(
            executable_start,
            (bi.user_image_frames.end - bi.user_image_frames.start) * 0x1000,
        ).len() < VREGION_SIZE ==> r is Err && r->Err_0 == KError::NotEnoughMemory,
        only_pages(bi.untyped_list@, bi.untyped.end - bi.untyped.start) && boot_region(
            executable_start,
            (bi.user_image_frames.end - bi.user_image_frames.start) * 0x1000,
        ).len() >= VREGION_SIZE ==> r is Ok,
        only_pages(bi.untyped_list@, bi.untyped.end - bi.untyped.start) ==> final(k)@ == old(k)@,
        extends(old(k)@, final(k)@),
        r is Ok <==> boot_region(
            executable_start,
            (bi.user_image_frames.end - bi.user_image_frames.start) * 0x1000,
        ).len() >= VREGION_SIZE && agreed(old(k)@, final(k)@) && boot_pools(bi) is Some,
        r matches Ok(task) ==> (task.untyped@, task.slots@) == boot_pools(bi).unwrap(),
{
    let image_len = (bi.user_image_frames.end - bi.user_image_frames.start) * kernel::PAGE_4K_SIZE;
    let ghost region = boot_region(executable_start, image_len as int);
    let ghost empty = Span { start: bi.empty.start as int, end: bi.empty.end as int };
    let mut slots = SlotAllocator::new();
    proof {
        assert(crate::crust::freelist::points(slots@) =~= Set::<int>::empty());
    }
    init_cslots(&mut slots, CapRange::range(bi.empty.start, bi.empty.end));
    assert(slots@ =~= seq![empty]);
    assert(slots.free() =~= empty.points());
    let mut vspace = RegionAllocator::new();
    proof {
        assert(crate::crust::freelist::points(vspace@) =~= Set::<int>::empty());
    }
    init_vspace(&mut vspace, executable_start, image_len);
    assert(vspace@ =~= seq![region]);
    assert(vspace@[0] == region);
    proof {
        let s = seq![region];
        assert(s[0] == region);
        assert(s.skip(1) =~= Seq::<Span>::empty());
        assert(first_fit(s.skip(1), VREGION_SIZE as int) == 0);
        assert(first_fit(s, VREGION_SIZE as int) == if region.len() >= VREGION_SIZE {
            0int
        } else {
            1int
        });
    }
    let mut heap = Heap::new(heap_base);
    init_allocator(&mut heap, &mut vspace)?;
    let mut allocator = UntypedAllocator::new();
    let ghost fresh = allocator@;
    proof {
        assert(fresh.small =~= Seq::empty());
        assert(fresh.large =~= Seq::empty());
        assert(fresh.stashed =~= Seq::empty());
    }
    untyped::init_untyped(
        &mut allocator,
        CapRange::range(bi.untyped.start, bi.untyped.end),
        &bi.untyped_list,
        &mut slots,
        k,
    )?;
    let devices = device::init_untyped(
        CapRange::range(bi.untyped.start, bi.untyped.end),
        &bi.untyped_list,
    );
    proof {
        let count = bi.untyped.end - bi.untyped.start;
        if only_pages(bi.untyped_list@, count) {
            assert(allocator@.small =~= picked(
                bi.untyped_list@,
                bi.untyped.start as int,
                0,
                count,
                kernel::PAGE_4K_BITS,
            ));
            assert(allocator@.large =~= picked(
                bi.untyped_list@,
                bi.untyped.start as int,
                0,
                count,
                kernel::PAGE_2M_BITS,
            ));
            assert(allocator@.stashed =~= Seq::empty());
        }
        assert(crate::crust::freelist::points(seq![empty]) =~= empty.points()) by {
            assert forall|x: int| crate::crust::freelist::covers(seq![empty], x)
                <==> empty.contains(
                x,
            ) by {
                if empty.contains(x) {
                    assert(seq![empty][0].contains(x));
                }
            }
        }
    }
    let task = RootTask {
        slots,
        vspace,
        untyped: allocator,
        fragments: FragmentAllocator::new(),
        devices,
        tables: PageTables::new(),
        heap,
    };
    proof {
        let count = bi.untyped.end - bi.untyped.start;
        assert(task.wf());
        assert(task.tables@.len() == 0);
        assert(task.fragments@.available.len() == 0);
        assert(task.devices@
            == picked_devices(bi.untyped_list@, bi.untyped.start as int, 0, count));
        assert(region.len() >= VREGION_SIZE);
        assert(task.vspace@ == take_n(seq![region], VREGION_SIZE as int));
        assert(task.heap.dynamic is Some);
        assert(task.slots.free().subset_of(empty.points()));
    }
    Ok(task)
}

/// A line of the boot information's text: two blanks, the label, an equals sign, the
/// value.
pub open spec fn line_text(label: &str, value: Seq<u8>) -> Seq<u8> {
    "  ".spec_bytes() + label.spec_bytes() + " = ".spec_bytes() + value + "\n".spec_bytes()
}

/// A range of slots as text: its two bounds in brackets, the upper one excluded.
pub open spec fn region_text(r: SlotRegion) -> Seq<u8> {
    "[".spec_bytes() + decimal(r.start as nat) + ", ".spec_bytes() + decimal(r.end as nat)
        + ")".spec_bytes()
}

/// The number of untypeds as text: in braces.
pub open spec fn count_text(n: nat) -> Seq<u8> {
    "{".spec_bytes() + decimal(n) + "}".spec_bytes()
}

/// The boot information as text.
pub open spec fn boot_text(bi: &BootInfo) -> Seq<u8> {
    "BootInfo:\n".spec_bytes() + line_text("nodeID", decimal(bi.node_id as nat)) + line_text(
        "numNodes",
        decimal(bi.num_nodes as nat),
    ) + line_text("numIOPTLevels", signed_decimal(bi.num_iopt_levels)) + line_text(
        "ipcBuffer",
        "<object>".spec_bytes(),
    ) + line_text("empty", region_text(bi.empty)) + line_text(
        "sharedFrames",
        region_text(bi.shared_frames),
    ) + line_text("userImageFrames", region_text(bi.user_image_frames)) + line_text(
        "userImagePaging",
        region_text(bi.user_image_paging),
    ) + line_text("untyped", region_text(bi.untyped)) + line_text(
        "untypedList",
        count_text((bi.untyped.end - bi.untyped.start) as nat),
    ) + line_text(
        "initThreadCNodeSizeBits",
        decimal(bi.init_thread_cnode_size_bits as nat),
    ) + line_text("initThreadDomain", decimal(bi.init_thread_domain as nat))
}

/// Prints the start of a line: two blanks, the label, an equals sign.
fn put_label<S: Syscalls>(k: &mut Machine<S>, label: &str)
    ensures
        printed(
            old(k)@,
            final(k)@,
            "  ".spec_bytes() + label.spec_bytes() + " = ".spec_bytes(),
        ),
        extends(old(k)@, final(k)@),
{
    put_str(k, "  ");
    let ghost a = k@;
    put_str(k, label);
    let ghost b = k@;
    put_str(k, " = ");
    proof {
        lemma_printed_join(old(k)@, a, b, "  ".spec_bytes(), label.spec_bytes());
        lemma_printed_join(
            old(k)@,
            b,
            k@,
            "  ".spec_bytes() + label.spec_bytes(),
            " = ".spec_bytes(),
        );
    }
}

/// Ends a line whose label was printed at `start` and whose value was printed since
/// `mid`.
proof fn lemma_line(
    start: Seq<crate::mantle::kio::Event>,
    mid: Seq<crate::mantle::kio::Event>,
    end: Seq<crate::mantle::kio::Event>,
    after: Seq<crate::mantle::kio::Event>,
    label: &str,
    value: Seq<u8>,
)
    requires
        printed(start, mid, "  ".spec_bytes() + label.spec_bytes() + " = ".spec_bytes()),
        printed(mid, end, value),
        printed(end, after, "\n".spec_bytes()),
    ensures
        printed(start, after, line_text(label, value)),
{
    let head = "  ".spec_bytes() + label.spec_bytes() + " = ".spec_bytes();
    lemma_printed_join(start, mid, end, head, value);
    lemma_printed_join(start, end, after, head + value, "\n".spec_bytes());
}

/// Prints a line with a number.
fn put_number_line<S: Syscalls>(k: &mut Machine<S>, label: &str, n: usize)
    ensures
        printed(old(k)@, final(k)@, line_text(label, decimal(n as nat))),
        extends(old(k)@, final(k)@),
{
    put_label(k, label);
    let ghost mid = k@;
    put_decimal(k, n);
    let ghost end = k@;
    put_str(k, "\n");
    proof {
        lemma_line(old(k)@, mid, end, k@, label, decimal(n as nat));
    }
}

/// Prints a line with a range of slots.
fn put_region_line<S: Syscalls>(k: &mut Machine<S>, label: &str, r: &SlotRegion)
    ensures
        printed(old(k)@, final(k)@, line_text(label, region_text(*r))),
        extends(old(k)@, final(k)@),
{
    put_label(k, label);
    let ghost mid = k@;
    put_str(k, "[");
    let ghost a = k@;
    put_decimal(k, r.start);
    let ghost b = k@;
    put_str(k, ", ");
    let ghost c = k@;
    put_decimal(k, r.end);
    let ghost d = k@;
    put_str(k, ")");
    let ghost end = k@;
    put_str(k, "\n");
    proof {
        let t1 = "[".spec_bytes();
        let t2 = t1 + decimal(r.start as nat);
        let t3 = t2 + ", ".spec_bytes();
        let t4 = t3 + decimal(r.end as nat);
        lemma_printed_join(mid, a, b, t1, decimal(r.start as nat));
        lemma_printed_join(mid, b, c, t2, ", ".spec_bytes());
        lemma_printed_join(mid, c, d, t3, decimal(r.end as nat));
        lemma_printed_join(mid, d, end, t4, ")".spec_bytes());
        lemma_line(old(k)@, mid, end, k@, label, region_text(*r));
    }
}

/// Prints the boot information on the kernel's debug console.
pub fn print_bootinfo<S: Syscalls>(k: &mut Machine<S>, bi: &BootInfo)
    requires
        bi.untyped.start <= bi.untyped.end,
    ensures
        printed(old(k)@, final(k)@, boot_text(bi)),
        extends(old(k)@, final(k)@),
{
    put_str(k, "BootInfo:\n");
    let ghost mut acc = "BootInfo:\n".spec_bytes();
    let ghost mut at = k@;
    put_number_line(k, "nodeID", bi.node_id);
    proof {
        let piece = line_text("nodeID", decimal(bi.node_id as nat));
        lemma_printed_join(old(k)@, at, k@, acc, piece);
        acc = acc + piece;
        at = k@;
    }
    put_number_line(k, "numNodes", bi.num_nodes);
    proof {
        let piece = line_text("numNodes", decimal(bi.num_nodes as nat));
        lemma_printed_join(old(k)@, at, k@, acc, piece);
        acc = acc + piece;
        at = k@;
    }
    put_label(k, "numIOPTLevels");
    let ghost mid = k@;
    put_signed(k, bi.num_iopt_levels);
    let ghost end = k@;
    put_str(k, "\n");
    proof {
        let piece = line_text("numIOPTLevels", signed_decimal(bi.num_iopt_levels));
        lemma_line(at, mid, end, k@, "numIOPTLevels", signed_decimal(bi.num_iopt_levels));
        lemma_printed_join(old(k)@, at, k@, acc, piece);
        acc = acc + piece;
        at = k@;
    }
    put_label(k, "ipcBuffer");
    let ghost mid = k@;
    put_str(k, "<object>");
    let ghost end = k@;
    put_str(k, "\n");
    proof {
        let piece = line_text("ipcBuffer", "<object>".spec_bytes());
        lemma_line(at, mid, end, k@, "ipcBuffer", "<object>".spec_bytes());
        lemma_printed_join(old(k)@, at, k@, acc, piece);
        acc = acc + piece;
        at = k@;
    }
    put_region_line(k, "empty", &bi.empty);
    proof {
        let piece = line_text("empty", region_text(bi.empty));
        lemma_printed_join(old(k)@, at, k@, acc, piece);
        acc = acc + piece;
        at = k@;
    }
    put_region_line(k, "sharedFrames", &bi.shared_frames);
    proof {
        let piece = line_text("sharedFrames", region_text(bi.shared_frames));
        lemma_printed_join(old(k)@, at, k@, acc, piece);
        acc = acc + piece;
        at = k@;
    }
    put_region_line(k, "userImageFrames", &bi.user_image_frames);
    proof {
        let piece = line_text("userImageFrames", region_text(bi.user_image_frames));
        lemma_printed_join(old(k)@, at, k@, acc, piece);
        acc = acc + piece;
        at = k@;
    }
    put_region_line(k, "userImagePaging", &bi.user_image_paging);
    proof {
        let piece = line_text("userImagePaging", region_text(bi.user_image_paging));
        lemma_printed_join(old(k)@, at, k@, acc, piece);
        acc = acc + piece;
        at = k@;
    }
    put_region_line(k, "untyped", &bi.untyped);
    proof {
        let piece = line_text("untyped", region_text(bi.untyped));
        lemma_printed_join(old(k)@, at, k@, acc, piece);
        acc = acc + piece;
        at = k@;
    }
    put_label(k, "untypedList");
    let ghost mid = k@;
    put_str(k, "{");
    let ghost a = k@;
    put_decimal(k, bi.untyped.end - bi.untyped.start);
    let ghost b = k@;
    put_str(k, "}");
    let ghost end = k@;
    put_str(k, "\n");
    proof {
        let n = (bi.untyped.end - bi.untyped.start) as nat;
        let piece = line_text("untypedList", count_text(n));
        lemma_printed_join(mid, a, b, "{".spec_bytes(), decimal(n));
        lemma_printed_join(mid, b, end, "{".spec_bytes() + decimal(n), "}".spec_bytes());
        lemma_line(at, mid, end, k@, "untypedList", count_text(n));
        lemma_printed_join(old(k)@, at, k@, acc, piece);
        acc = acc + piece;
        at = k@;
    }
    put_number_line(k, "initThreadCNodeSizeBits", bi.init_thread_cnode_size_bits as usize);
    proof {
        let piece = line_text(
            "initThreadCNodeSizeBits",
            decimal(bi.init_thread_cnode_size_bits as nat),
        );
        lemma_printed_join(old(k)@, at, k@, acc, piece);
        acc = acc + piece;
        at = k@;
    }
    put_number_line(k, "initThreadDomain", bi.init_thread_domain);
    proof {
        let piece = line_text("initThreadDomain", decimal(bi.init_thread_domain as nat));
        lemma_printed_join(old(k)@, at, k@, acc, piece);
        acc = acc + piece;
    }
}

} // verus!
