//! Device memory: each device untyped of the boot information is split in halves, on
//! demand, down to the 4K page that holds a wanted physical address.
use vstd::prelude::*;
use crate::mantle::kio::extends;
use crate::kobject::steps::group_record;
use vstd::arithmetic::power2::{lemma_pow2_pos, lemma_pow2_unfold, pow2};
use crate::crust::capalloc::{
    allocate_cap_slot,
    allocate_cap_slots,
    free_cap_slot,
    free_cap_slots,
    window_span,
    SlotAllocator,
};
use crate::crust::freelist::{
    first_fit,
    lemma_take,
    merge,
    points,
    take_n,
    take_one,
    taken_and_back,
    unit,
};
use crate::intervals::Span;
use crate::kobject::{
    CapRange,
    CapSlot,
    Page4K,
    SlotWindow,
    Untyped,
    UntypedSet,
    UntypedSetView,
    UntypedView,
};
use crate::mantle::kernel;
use crate::mantle::kernel::{bytes_of_bits, KError, UntypedDesc};
use crate::kobject::cap::deleted;
use crate::kobject::capset::deleted_all;
use crate::kobject::steps::{group_agreed, retyped};
use crate::mantle::calls::{agreed, lemma_agreed_parts};
use crate::mantle::calls::verdict;
use crate::mantle::kernel::ObjectType;
use crate::mantle::kio::{last_answer, Event, Machine, Syscalls};
use crate::crust::vspace::RegionAllocator;
use crate::kobject::page4k::{agreed_but_table, lemma_agreed_but_table};
use crate::kobject::{MappedPage4K, PageTables};
use crate::memory::linkedlist::{is_first_match, no_match, LinkedList};
use crate::memory::untyped::{Pools, UntypedAllocator};

verus! {

broadcast use group_record, group_agreed;

/// The state of a block of device memory.
pub enum BlockState {
    /// The block's untyped is at hand.
    Available(UntypedView),
    /// The block's untyped was split in two halves; the set of the halves, both taken
    /// out, is kept.
    Split(UntypedSetView),
    /// The block's untyped was handed out.
    Taken,
}

/// What a block of device memory is: `2^size_bits` bytes of physical memory from `paddr`
/// on, and its state.
pub struct SubblockView {
    pub paddr: usize,
    pub size_bits: u8,
    pub state: BlockState,
}

impl SubblockView {
    /// The physical addresses of the block.
    pub open spec fn span(self) -> Span {
        Span { start: self.paddr as int, end: self.paddr + pow2(self.size_bits as nat) }
    }

    pub open spec fn contains(self, addr: usize) -> bool {
        self.span().contains(addr as int)
    }

    /// The block is at least a page, its addresses fit the machine word, and what it
    /// holds has the size that its state asks for.
    pub open spec fn wf(self) -> bool {
        &&& kernel::PAGE_4K_BITS <= self.size_bits < usize::BITS
        &&& self.paddr + pow2(self.size_bits as nat) <= usize::MAX
        &&& match self.state {
            BlockState::Available(ut) => ut.size_bits == self.size_bits,
            BlockState::Split(set) => set.size_bits == self.size_bits - 1 && set.parent.size_bits
                == self.size_bits && set.window.end == set.window.start + 2
                && set.window.fillstart == set.window.end && set.window.fillend == set.window.end
                && set.window.start >= 0,
            BlockState::Taken => true,
        }
    }

    /// The lower half of the block, with the untyped in slot `slot` at hand.
    pub open spec fn lower(self, slot: int) -> SubblockView {
        SubblockView {
            paddr: self.paddr,
            size_bits: (self.size_bits - 1) as u8,
            state: BlockState::Available(
                UntypedView { slot: slot as usize, size_bits: (self.size_bits - 1) as u8 },
            ),
        }
    }

    /// The upper half of the block, with the untyped in slot `slot` at hand.
    pub open spec fn upper(self, slot: int) -> SubblockView {
        SubblockView {
            paddr: (self.paddr + pow2((self.size_bits - 1) as nat)) as usize,
            size_bits: (self.size_bits - 1) as u8,
            state: BlockState::Available(
                UntypedView { slot: slot as usize, size_bits: (self.size_bits - 1) as u8 },
            ),
        }
    }

    /// The block after its untyped `ut` was split into the two slots from `slot` on.
    pub open spec fn halved(self, ut: UntypedView, slot: int) -> SubblockView {
        SubblockView {
            state: BlockState::Split(
                UntypedSetView {
                    window: SlotWindow {
                        start: slot,
                        end: slot + 2,
                        fillstart: slot + 2,
                        fillend: slot + 2,
                    },
                    size_bits: (self.size_bits - 1) as u8,
                    parent: ut,
                },
            ),
            ..self
        }
    }
}

/// The two halves of a block lie side by side and make up the block.
pub proof fn lemma_halves(b: SubblockView, s0: int, s1: int)
    requires
        b.wf(),
        b.size_bits > kernel::PAGE_4K_BITS,
    ensures
        b.lower(s0).wf(),
        b.upper(s1).wf(),
        b.lower(s0).span().start == b.span().start,
        b.lower(s0).span().end == b.upper(s1).span().start,
        b.upper(s1).span().end == b.span().end,
        b.lower(s0).span().start < b.lower(s0).span().end,
        b.upper(s1).span().start < b.upper(s1).span().end,
{
    lemma_pow2_unfold(b.size_bits as nat);
    lemma_pow2_pos((b.size_bits - 1) as nat);
}

/// A block of device memory.
pub struct Subblock {
    ut: Option<Untyped>,
    us: Option<UntypedSet>,
    paddr: usize,
    size_bits: u8,
}

impl Subblock {
    pub closed spec fn view(&self) -> SubblockView {
        SubblockView {
            paddr: self.paddr,
            size_bits: self.size_bits,
            state: match (self.ut, self.us) {
                (Some(ut), _) => BlockState::Available(ut@),
                (None, Some(us)) => BlockState::Split(us@),
                (None, None) => BlockState::Taken,
            },
        }
    }

    pub closed spec fn wf(&self) -> bool {
        &&& self@.wf()
        &&& !(self.ut is Some && self.us is Some)
    }

    pub proof fn lemma_wf(&self)
        requires
            self.wf(),
        ensures
            self@.wf(),
    {
    }

    /// A block that covers `2^size_bits` bytes from `paddr` on through the untyped `ut`.
    pub fn new(ut: Untyped, paddr: usize) -> (r: Subblock)
        requires
            kernel::PAGE_4K_BITS <= ut@.size_bits < usize::BITS,
            paddr + pow2(ut@.size_bits as nat) <= usize::MAX,
        ensures
            r.wf(),
            r@ == (SubblockView {
                paddr,
                size_bits: ut@.size_bits,
                state: BlockState::Available(ut@),
            }),
    {
        let size_bits = ut.size_bits();
        Subblock { ut: Some(ut), us: None, paddr, size_bits }
    }

    pub fn start(&self) -> (r: usize)
        ensures
            r == self@.paddr,
    {
        self.paddr
    }

    pub fn len(&self) -> (r: usize)
        requires
            self.wf(),
        ensures
            r == pow2(self@.size_bits as nat),
    {
        bytes_of_bits(self.size_bits)
    }

    /// The address at which the upper half of the block begins.
    pub fn mid(&self) -> (r: usize)
        requires
            self.wf(),
        ensures
            r == self@.paddr + pow2((self@.size_bits - 1) as nat),
    {
        proof {
            lemma_pow2_unfold(self.size_bits as nat);
        }
        self.paddr + bytes_of_bits(self.size_bits - 1)
    }

    pub fn end(&self) -> (r: usize)
        requires
            self.wf(),
        ensures
            r == self@.span().end,
    {
        self.paddr + self.len()
    }

    pub fn contains(&self, addr: usize) -> (r: bool)
        requires
            self.wf(),
        ensures
            r == self@.contains(addr),
    {
        self.start() <= addr && addr < self.end()
    }

    pub fn is_available(&self) -> (r: bool)
        ensures
            r == (self@.state is Available),
    {
        self.ut.is_some()
    }

    /// Takes the block's untyped out.
    pub fn take(&mut self) -> (r: Untyped)
        requires
            old(self).wf(),
            old(self)@.state is Available,
        ensures
            final(self).wf(),
            old(self)@.state == BlockState::Available(r@),
            final(self)@ == (SubblockView { state: BlockState::Taken, ..old(self)@ }),
    {
        self.ut.take().unwrap()
    }

    /// Puts the block's untyped back.
    pub fn return_taken(&mut self, ut: Untyped)
        requires
            old(self).wf(),
            old(self)@.state is Taken,
            ut@.size_bits == old(self)@.size_bits,
        ensures
            final(self).wf(),
            final(self)@ == (SubblockView { state: BlockState::Available(ut@), ..old(self)@ }),
    {
        self.ut = Some(ut);
    }

    /// Splits the block's untyped in two, into slots from `slots`, and returns the two
    /// halves of the block. All or nothing: on failure the block is as before and the
    /// slots are back.
    pub fn split<S: Syscalls>(&mut self, slots: &mut SlotAllocator, k: &mut Machine<S>) -> (r: Result<
        (Subblock, Subblock),
        KError,
    >)
        requires
            old(self).wf(),
            old(self)@.state is Available,
            old(self)@.size_bits > kernel::PAGE_4K_BITS,
            old(slots).wf(),
        ensures
            final(self).wf(),
            final(slots).wf(),
            final(slots).free().subset_of(old(slots).free()),
            first_fit(old(slots)@, 2) >= old(slots)@.len() ==> r == Err::<
                (Subblock, Subblock),
                KError,
            >(KError::NotEnoughMemory),
            r matches Ok((lower, upper)) ==> first_fit(old(slots)@, 2) < old(slots)@.len()
                && lower.wf() && upper.wf() && lower@ == old(self)@.lower(
                old(slots)@[first_fit(old(slots)@, 2)].start,
            ) && upper@ == old(self)@.upper(old(slots)@[first_fit(old(slots)@, 2)].start + 1)
                && final(self)@ == old(self)@.halved(
                old(self)@.state->Available_0,
                old(slots)@[first_fit(old(slots)@, 2)].start,
            ) && final(slots)@ == take_n(old(slots)@, 2),
            r matches Err(err) ==> err != KError::NoError && final(self)@ == old(self)@
                && final(slots).free() == old(slots).free(),
            first_fit(old(slots)@, 2) >= old(slots)@.len() ==> final(k)@ == old(k)@ && final(slots)@
                == old(slots)@,
            first_fit(old(slots)@, 2) < old(slots)@.len() && r is Err ==> final(slots)@
                == taken_and_back(old(slots)@, 2),
            first_fit(old(slots)@, 2) < old(slots)@.len()
                ==> (r is Ok <==> verdict(last_answer(final(k)@))
                == KError::NoError) && (r matches Err(err) ==> err
                    == verdict(last_answer(final(k)@)))
                && retyped(
                old(k)@,
                old(self)@.state->Available_0.slot,
                ObjectType::UntypedObject,
                (old(self)@.size_bits - 1) as u8,
                old(slots)@[first_fit(old(slots)@, 2)].start,
                2,
                final(k)@,
            ),
            extends(old(k)@, final(k)@),
    {
        proof {
            vstd::arithmetic::power2::lemma2_to64();
            lemma_halves(self@, 0, 0);
            if first_fit(slots@, 2) < slots@.len() {
                lemma_take(slots@, 2);
            }
        }
        let ut = self.take();
        let cslots = match allocate_cap_slots(slots, 2) {
            Ok(cslots) => cslots,
            Err(err) => {
                self.return_taken(ut);
                return Err(err);
            },
        };
        match ut.split(1, cslots, k) {
            Ok(uset) => {
                let mut uset = uset;
                let earlier = uset.take_front().unwrap();
                let later = uset.take_front().unwrap();
                self.us = Some(uset);
                let lower = Subblock {
                    ut: Some(earlier),
                    us: None,
                    paddr: self.start(),
                    size_bits: self.size_bits - 1,
                };
                let upper = Subblock {
                    ut: Some(later),
                    us: None,
                    paddr: self.mid(),
                    size_bits: self.size_bits - 1,
                };
                Ok((lower, upper))
            },
            Err((err, ut, cslots)) => {
                self.ut = Some(ut);
                free_cap_slots(slots, cslots);
                assert(slots.free() =~= old(slots).free());
                Err(err)
            },
        }
    }

    /// Undoes a split: the two halves give their untypeds back, the kernel deletes them,
    /// their slots go back to `slots`, and the block has its untyped again.
    pub fn unsplit<S: Syscalls>(
        &mut self,
        earlierblk: Subblock,
        laterblk: Subblock,
        slots: &mut SlotAllocator,
        k: &mut Machine<S>,
    )
        requires
            old(self).wf(),
            old(slots).wf(),
            old(self)@.state is Split,
            earlierblk@.state == BlockState::Available(
                UntypedView {
                    slot: old(self)@.state->Split_0.window.start as usize,
                    size_bits: (old(self)@.size_bits - 1) as u8,
                },
            ),
            laterblk@.state == BlockState::Available(
                UntypedView {
                    slot: (old(self)@.state->Split_0.window.start + 1) as usize,
                    size_bits: (old(self)@.size_bits - 1) as u8,
                },
            ),
            old(self)@.state->Split_0.window.end <= usize::MAX,
            crate::crust::freelist::holds_none_of(
                old(slots)@,
                window_span(old(self)@.state->Split_0.window),
            ),
        ensures
            final(self).wf(),
            final(slots).wf(),
            final(self)@ == (SubblockView {
                state: BlockState::Available(old(self)@.state->Split_0.parent),
                ..old(self)@
            }),
            final(slots).free() == old(slots).free().union(
                window_span(old(self)@.state->Split_0.window).points(),
            ),
            deleted_all(
                old(k)@,
                old(self)@.state->Split_0.window.start,
                old(self)@.state->Split_0.window.end,
                final(k)@,
            ),
            extends(old(k)@, final(k)@),
    {
        let mut uset = self.us.take().unwrap();
        let Subblock { ut: later_ut, us: _, paddr: _, size_bits: _ } = laterblk;
        let Subblock { ut: earlier_ut, us: _, paddr: _, size_bits: _ } = earlierblk;
        uset.readd(later_ut.unwrap());
        uset.readd(earlier_ut.unwrap());
        let (untyped, capslotset) = uset.free(k);
        free_cap_slots(slots, capslotset);
        self.return_taken(untyped);
    }

    /// Whether the block is larger than a page.
    pub fn needs_split(&self) -> (r: bool)
        requires
            self.wf(),
        ensures
            r == (self@.size_bits != kernel::PAGE_4K_BITS),
    {
        self.size_bits != kernel::PAGE_4K_BITS
    }

    /// A block of one page hands out its untyped; a larger block is split and hands out
    /// its halves.
    pub fn try_use_as_page<S: Syscalls>(&mut self, slots: &mut SlotAllocator, k: &mut Machine<S>) -> (r:
        Result<Result<Untyped, (Subblock, Subblock)>, KError>)
        requires
            old(self).wf(),
            old(self)@.state is Available,
            old(slots).wf(),
        ensures
            final(self).wf(),
            final(slots).wf(),
            final(slots).free().subset_of(old(slots).free()),
            old(self)@.size_bits == kernel::PAGE_4K_BITS
                ==> (r matches Ok(Ok(ut)) && old(self)@.state == BlockState::Available(ut@)
                    && final(self)@ == (SubblockView {
                state: BlockState::Taken,
                ..old(self)@
            }) && final(slots)@ == old(slots)@),
            old(self)@.size_bits != kernel::PAGE_4K_BITS ==> !(r matches Ok(Ok(_))),
            r matches Ok(Err((lower, upper))) ==> first_fit(old(slots)@, 2) < old(slots)@.len()
                && lower.wf() && upper.wf() && lower@ == old(self)@.lower(
                old(slots)@[first_fit(old(slots)@, 2)].start,
            ) && upper@ == old(self)@.upper(old(slots)@[first_fit(old(slots)@, 2)].start + 1)
                && final(self)@ == old(self)@.halved(
                old(self)@.state->Available_0,
                old(slots)@[first_fit(old(slots)@, 2)].start,
            ) && final(slots)@ == take_n(old(slots)@, 2),
            r matches Err(err) ==> err != KError::NoError && final(self)@ == old(self)@
                && final(slots).free() == old(slots).free(),
            old(self)@.size_bits != kernel::PAGE_4K_BITS
                && first_fit(old(slots)@, 2) >= old(slots)@.len() ==> r
                == Err::<Result<Untyped, (Subblock, Subblock)>, KError>(
                KError::NotEnoughMemory,
            ),
            old(self)@.size_bits == kernel::PAGE_4K_BITS ==> final(k)@ == old(k)@,
            old(self)@.size_bits != kernel::PAGE_4K_BITS
                && first_fit(old(slots)@, 2) >= old(slots)@.len()
                ==> final(k)@ == old(k)@ && final(slots)@ == old(slots)@,
            old(self)@.size_bits != kernel::PAGE_4K_BITS
                && first_fit(old(slots)@, 2) < old(slots)@.len() && r is Err ==> final(slots)@
                == taken_and_back(old(slots)@, 2),
            old(self)@.size_bits != kernel::PAGE_4K_BITS
                && first_fit(old(slots)@, 2) < old(slots)@.len()
                ==> (r is Ok <==> verdict(last_answer(final(k)@)) == KError::NoError)
                    && (r matches Err(err)
                ==> err == verdict(last_answer(final(k)@))) && retyped(
                old(k)@,
                old(self)@.state->Available_0.slot,
                ObjectType::UntypedObject,
                (old(self)@.size_bits - 1) as u8,
                old(slots)@[first_fit(old(slots)@, 2)].start,
                2,
                final(k)@,
            ),
            extends(old(k)@, final(k)@),
    {
        if self.needs_split() {
            match self.split(slots, k) {
                Ok(halves) => Ok(Err(halves)),
                Err(err) => Err(err),
            }
        } else {
            Ok(Ok(self.take()))
        }
    }
}

/// The views of a list of blocks.
pub open spec fn block_views(list: Seq<Subblock>) -> Seq<SubblockView> {
    list.map_values(|b: Subblock| b@)
}

/// The position of the first block that holds `addr`; the list's length if none does.
pub open spec fn lookup(blocks: Seq<SubblockView>, addr: usize) -> int
    decreases blocks.len(),
{
    if blocks.len() == 0 {
        0
    } else if blocks[0].contains(addr) {
        0
    } else {
        1 + lookup(blocks.skip(1), addr)
    }
}

/// Of two blocks of a list, the one that comes first lies apart from the other or
/// inside it, and then the other is split.
pub open spec fn nested_or_apart(first: SubblockView, second: SubblockView) -> bool {
    ||| first.span().end <= second.span().start
    ||| second.span().end <= first.span().start
    ||| (second.span().start <= first.span().start && first.span().end <= second.span().end
        && second.state is Split)
}

/// The list holds the block `root` as its last entry, and the parts that blocks were
/// split into come before them.
pub open spec fn tree_wf(blocks: Seq<SubblockView>, root: Span) -> bool {
    &&& blocks.len() > 0
    &&& forall|i: int| 0 <= i < blocks.len() ==> (#[trigger] blocks[i]).wf()
    &&& blocks[blocks.len() - 1].span() == root
    &&& forall|i: int, j: int|
        0 <= i < j < blocks.len() ==> nested_or_apart(#[trigger] blocks[i], #[trigger] blocks[j])
}

pub proof fn lemma_lookup(blocks: Seq<SubblockView>, addr: usize)
    ensures
        0 <= lookup(blocks, addr) <= blocks.len(),
        lookup(blocks, addr) < blocks.len() ==> blocks[lookup(blocks, addr)].contains(addr),
        forall|j: int| 0 <= j < lookup(blocks, addr) ==> !(#[trigger] blocks[j]).contains(addr),
    decreases blocks.len(),
{
    if blocks.len() > 0 && !blocks[0].contains(addr) {
        lemma_lookup(blocks.skip(1), addr);
        assert forall|j: int| 0 <= j < lookup(blocks, addr) implies !(#[trigger] blocks[j]).contains(
            addr,
        ) by {
            if j > 0 {
                assert(blocks.skip(1)[j - 1] == blocks[j]);
            }
        }
    }
}

/// The first block that holds `addr` is where `lookup` says.
pub proof fn lemma_lookup_is(blocks: Seq<SubblockView>, addr: usize, i: int)
    requires
        0 <= i < blocks.len(),
        blocks[i].contains(addr),
        forall|j: int| 0 <= j < i ==> !(#[trigger] blocks[j]).contains(addr),
    ensures
        lookup(blocks, addr) == i,
{
    lemma_lookup(blocks, addr);
}

/// In a well-formed list every address of the root is found.
pub proof fn lemma_lookup_finds(blocks: Seq<SubblockView>, root: Span, addr: usize)
    requires
        tree_wf(blocks, root),
        root.contains(addr as int),
    ensures
        lookup(blocks, addr) < blocks.len(),
{
    lemma_lookup(blocks, addr);
    assert(blocks[blocks.len() - 1].contains(addr));
}

/// A change of a block's state changes no lookup.
pub proof fn lemma_lookup_same(blocks: Seq<SubblockView>, addr: usize, p: int, state: BlockState)
    requires
        0 <= p < blocks.len(),
    ensures
        lookup(blocks.update(p, SubblockView { state, ..blocks[p] }), addr) == lookup(blocks, addr),
{
    let n = blocks.update(p, SubblockView { state, ..blocks[p] });
    lemma_lookup(blocks, addr);
    lemma_lookup(n, addr);
    let i = lookup(blocks, addr);
    let j = lookup(n, addr);
    if i < blocks.len() {
        assert(n[i].contains(addr));
    }
    if j < n.len() {
        assert(blocks[j].contains(addr));
    }
}

/// A block whose state changes between at hand and handed out leaves the list
/// well-formed.
pub proof fn lemma_leaf_keeps_tree(
    blocks: Seq<SubblockView>,
    root: Span,
    p: int,
    state: BlockState,
)
    requires
        tree_wf(blocks, root),
        0 <= p < blocks.len(),
        !(blocks[p].state is Split),
        !(state is Split),
        (SubblockView { state, ..blocks[p] }).wf(),
    ensures
        tree_wf(blocks.update(p, SubblockView { state, ..blocks[p] }), root),
{
    let n = blocks.update(p, SubblockView { state, ..blocks[p] });
    assert forall|i: int, j: int| 0 <= i < j < n.len() implies nested_or_apart(
        #[trigger] n[i],
        #[trigger] n[j],
    ) by {
        assert(nested_or_apart(blocks[i], blocks[j]));
    }
}

/// The list after the block at `p` was split, with its halves put in front, the half
/// that holds `addr` first.
pub open spec fn with_halves(blocks: Seq<SubblockView>, p: int, slot: int, addr: usize) -> Seq<
    SubblockView,
> {
    let parent = blocks[p];
    let rest = blocks.update(p, parent.halved(parent.state->Available_0, slot));
    if parent.upper(slot + 1).contains(addr) {
        seq![parent.upper(slot + 1), parent.lower(slot)] + rest
    } else {
        seq![parent.lower(slot), parent.upper(slot + 1)] + rest
    }
}

/// Splitting a block whose untyped is at hand leaves the list well-formed; the half that
/// holds `addr` is then the first block that does.
pub proof fn lemma_split_keeps_tree(
    blocks: Seq<SubblockView>,
    root: Span,
    p: int,
    slot: int,
    addr: usize,
)
    requires
        tree_wf(blocks, root),
        0 <= p < blocks.len(),
        blocks[p].state is Available,
        blocks[p].size_bits > kernel::PAGE_4K_BITS,
        blocks[p].contains(addr),
        0 <= slot,
    ensures
        tree_wf(with_halves(blocks, p, slot, addr), root),
        lookup(with_halves(blocks, p, slot, addr), addr) == 0,
        with_halves(blocks, p, slot, addr)[0].state is Available,
        with_halves(blocks, p, slot, addr)[0].size_bits == blocks[p].size_bits - 1,
        with_halves(blocks, p, slot, addr).len() == blocks.len() + 2,
{
    let parent = blocks[p];
    let lo = parent.lower(slot);
    let hi = parent.upper(slot + 1);
    lemma_halves(parent, slot, slot + 1);
    let halved = parent.halved(parent.state->Available_0, slot);
    let rest = blocks.update(p, halved);
    let n = with_halves(blocks, p, slot, addr);
    assert(halved.wf());
    assert(halved.span() == parent.span());
    assert forall|i: int| 0 <= i < n.len() implies (#[trigger] n[i]).wf() by {
        if i >= 2 {
            assert(n[i] == rest[i - 2]);
            if i - 2 != p {
                assert(rest[i - 2] == blocks[i - 2]);
            }
        }
    }
    assert forall|i: int, j: int| 0 <= i < j < n.len() implies nested_or_apart(
        #[trigger] n[i],
        #[trigger] n[j],
    ) by {
        if j >= 2 {
            let j0 = j - 2;
            assert(n[j] == rest[j0]);
            if i >= 2 {
                let i0 = i - 2;
                assert(n[i] == rest[i0]);
                assert(nested_or_apart(blocks[i0], blocks[j0]));
            } else {
                // a half against a block of the old list
                if j0 == p {
                } else if j0 < p {
                    assert(nested_or_apart(blocks[j0], blocks[p]));
                } else {
                    assert(nested_or_apart(blocks[p], blocks[j0]));
                }
            }
        }
    }
    assert(n[n.len() - 1] == rest[rest.len() - 1]);
    assert(n[0].contains(addr));
}

/// The block list, the free slots and the untyped handed out after the walk down to the
/// page that holds `addr`, from a first block that holds it with `steps` bits more than a
/// page: `steps` times the first block that holds `addr` is split in halves, into two
/// slots from the first free range that has two, and then the page is taken.
pub open spec fn walked(
    blocks: Seq<SubblockView>,
    slots: Seq<Span>,
    addr: usize,
    steps: nat,
) -> (Seq<SubblockView>, Seq<Span>, UntypedView)
    decreases steps,
{
    let at = lookup(blocks, addr);
    if steps == 0 {
        (
            blocks.update(at, SubblockView { state: BlockState::Taken, ..blocks[at] }),
            slots,
            blocks[at].state->Available_0,
        )
    } else {
        walked(
            with_halves(blocks, at, slots[first_fit(slots, 2)].start, addr),
            take_n(slots, 2),
            addr,
            (steps - 1) as nat,
        )
    }
}

/// The block list and the free slots after the first `count` splits of the walk down
/// to the page that holds `addr`.
pub open spec fn split_down(
    blocks: Seq<SubblockView>,
    slots: Seq<Span>,
    addr: usize,
    count: nat,
) -> (Seq<SubblockView>, Seq<Span>)
    decreases count,
{
    if count == 0 {
        (blocks, slots)
    } else {
        let (b, s) = split_down(blocks, slots, addr, (count - 1) as nat);
        (with_halves(b, lookup(b, addr), s[first_fit(s, 2)].start, addr), take_n(s, 2))
    }
}

/// How many splits of a walk the kernel agreed to, where the record `after` holds
/// nothing but the walk beyond `before`: each split is a retype of four steps, and a
/// walk ends with the first that the kernel refuses.
pub open spec fn splits_done(before: Seq<Event>, after: Seq<Event>) -> int {
    if agreed(before, after) {
        (after.len() - before.len()) / 4
    } else {
        (after.len() - before.len()) / 4 - 1
    }
}

/// What a walk that fails leaves behind: the splits that the kernel agreed to are
/// done, fewer than the walk needs, and the error says why the next was not: "not
/// enough memory" if slots or room in the list were missing, else the kernel's verdict.
pub open spec fn walk_failed(
    block: DeviceBlockView,
    slots: Seq<Span>,
    addr: usize,
    before: Seq<Event>,
    after: Seq<Event>,
    left: DeviceBlockView,
    left_slots: Seq<Span>,
    err: KError,
) -> bool {
    let done = splits_done(before, after);
    &&& 0 <= done < block.leaf(addr).size_bits - kernel::PAGE_4K_BITS
    &&& left.blocks == split_down(block.blocks, slots, addr, done as nat).0
    &&& left_slots == slots_left(block, slots, addr, before, after)
    &&& err == if agreed(before, after) {
        KError::NotEnoughMemory
    } else {
        verdict(last_answer(after))
    }
}

/// The free slots that a failed attempt to make the frame of a page leaves: those that
/// the whole walk leaves, where it reached the page; else those that the walk leaves
/// which stopped on the way.
pub open spec fn page_slots_left(
    block: DeviceBlockView,
    slots: Seq<Span>,
    addr: usize,
    before: Seq<Event>,
    after: Seq<Event>,
) -> Seq<Span> {
    let steps = (block.leaf(addr).size_bits - kernel::PAGE_4K_BITS) as nat;
    if splits_done(before, after) == steps {
        walked(block.blocks, slots, addr, steps).1
    } else {
        slots_left(block, slots, addr, before, after)
    }
}

/// What a failed attempt to make the frame of the page that holds `addr` leaves behind.
/// Where the walk reached the page and the kernel refused to make the frame, every split
/// is done, the page's untyped is back at its block, and the error is the kernel's
/// verdict. Else the walk stopped on the way, as `walk_failed` says.
pub open spec fn page_failed(
    block: DeviceBlockView,
    slots: Seq<Span>,
    addr: usize,
    before: Seq<Event>,
    after: Seq<Event>,
    left: DeviceBlockView,
    left_slots: Seq<Span>,
    err: KError,
) -> bool {
    let steps = (block.leaf(addr).size_bits - kernel::PAGE_4K_BITS) as nat;
    if splits_done(before, after) == steps {
        let reached = walked(block.blocks, slots, addr, steps);
        &&& !agreed(before, after)
        &&& slots_for_walk(slots, steps)
        &&& left == (DeviceBlockView { blocks: reached.0, ..block }).with_leaf(
            addr,
            BlockState::Available(reached.2),
        )
        &&& left_slots == reached.1
        &&& err == verdict(last_answer(after))
    } else {
        walk_failed(block, slots, addr, before, after, left, left_slots, err)
    }
}

/// The free slots that a walk leaves which stops after the splits that the record
/// holds: each split keeps its two slots; the two slots of a split that the kernel
/// refused are free again.
pub open spec fn slots_left(
    block: DeviceBlockView,
    slots: Seq<Span>,
    addr: usize,
    before: Seq<Event>,
    after: Seq<Event>,
) -> Seq<Span> {
    let done = splits_done(before, after);
    let kept = split_down(block.blocks, slots, addr, done as nat).1;
    if agreed(before, after) || done >= block.leaf(addr).size_bits - kernel::PAGE_4K_BITS {
        kept
    } else {
        taken_and_back(kept, 2)
    }
}

/// The free slots suffice for `steps` splits: two slots in one range for each.
pub open spec fn slots_for_walk(slots: Seq<Span>, steps: nat) -> bool
    decreases steps,
{
    steps == 0 || (first_fit(slots, 2) < slots.len() && slots_for_walk(
        take_n(slots, 2),
        (steps - 1) as nat,
    ))
}

/// What a device block is: the physical memory that it covers and the list of the blocks
/// that it was split into, itself last.
pub struct DeviceBlockView {
    pub paddr: usize,
    pub size_bits: u8,
    pub blocks: Seq<SubblockView>,
}

impl DeviceBlockView {
    /// The physical addresses of the device block.
    pub open spec fn span(self) -> Span {
        Span { start: self.paddr as int, end: self.paddr + pow2(self.size_bits as nat) }
    }

    pub open spec fn contains(self, addr: usize) -> bool {
        self.span().contains(addr as int)
    }

    pub open spec fn wf(self) -> bool {
        &&& kernel::PAGE_4K_BITS <= self.size_bits < usize::BITS
        &&& self.paddr + pow2(self.size_bits as nat) <= usize::MAX
        &&& tree_wf(self.blocks, self.span())
    }

    /// The first block that holds `addr`.
    pub open spec fn leaf(self, addr: usize) -> SubblockView {
        self.blocks[lookup(self.blocks, addr)]
    }

    /// The device block with the state of the first block that holds `addr` changed.
    pub open spec fn with_leaf(self, addr: usize, state: BlockState) -> DeviceBlockView {
        DeviceBlockView {
            blocks: self.blocks.update(
                lookup(self.blocks, addr),
                SubblockView { state, ..self.leaf(addr) },
            ),
            ..self
        }
    }
}

/// A page that is handed out and taken back leaves the device block as it was, and the
/// slot of its frame, taken from the free slots and given back, leaves those as they
/// were: nothing leaks.
pub proof fn lemma_page_round_trip(d: DeviceBlockView, addr: usize, free: Set<int>, slot: int)
    requires
        d.wf(),
        d.contains(addr),
        d.leaf(addr).state is Available,
        free.contains(slot),
    ensures
        d.with_leaf(addr, BlockState::Taken).with_leaf(addr, d.leaf(addr).state) == d,
        d.with_leaf(addr, BlockState::Taken).leaf(addr).state is Taken,
        free.remove(slot).insert(slot) == free,
{
    let at = lookup(d.blocks, addr);
    lemma_lookup(d.blocks, addr);
    lemma_lookup_finds(d.blocks, d.span(), addr);
    lemma_lookup_same(d.blocks, addr, at, BlockState::Taken);
    let taken = d.with_leaf(addr, BlockState::Taken);
    assert(taken.with_leaf(addr, d.leaf(addr).state).blocks =~= d.blocks);
    assert(free.remove(slot).insert(slot) =~= free);
}

/// The first block that holds an address of a device block is no larger than the device
/// block: so the page that holds the address is reached by at most as many splits as
/// the device block has bits above a page's twelve.
pub proof fn lemma_splits_bounded(d: DeviceBlockView, addr: usize)
    requires
        d.wf(),
        d.contains(addr),
    ensures
        lookup(d.blocks, addr) < d.blocks.len(),
        kernel::PAGE_4K_BITS <= d.leaf(addr).size_bits <= d.size_bits,
        0 <= d.leaf(addr).size_bits - kernel::PAGE_4K_BITS <= d.size_bits - kernel::PAGE_4K_BITS,
{
    let at = lookup(d.blocks, addr);
    lemma_lookup(d.blocks, addr);
    lemma_lookup_finds(d.blocks, d.span(), addr);
    let leaf = d.blocks[at];
    let last = d.blocks.len() - 1;
    assert(d.blocks[last].contains(addr));
    if at < last {
        assert(nested_or_apart(d.blocks[at], d.blocks[last]));
        assert(leaf.span().len() <= d.span().len());
    }
    assert(leaf.wf());
    if leaf.size_bits > d.size_bits {
        vstd::arithmetic::power2::lemma_pow2_strictly_increases(
            d.size_bits as nat,
            leaf.size_bits as nat,
        );
    }
}

/// One device untyped of the boot information and what it was split into.
pub struct DeviceBlock {
    caps: LinkedList<Subblock>,
    // how many blocks `caps` holds
    count: usize,
    size_bits: u8,
    paddr: usize,
}

impl DeviceBlock {
    pub closed spec fn view(&self) -> DeviceBlockView {
        DeviceBlockView {
            paddr: self.paddr,
            size_bits: self.size_bits,
            blocks: block_views(self.caps@),
        }
    }

    pub closed spec fn wf(&self) -> bool {
        &&& self@.wf()
        &&& forall|i: int| 0 <= i < self.caps@.len() ==> (#[trigger] self.caps@[i]).wf()
        &&& self.caps@.len() == self.count
    }

    pub proof fn lemma_wf(&self)
        requires
            self.wf(),
        ensures
            self@.wf(),
    {
    }

    /// The device block of the untyped `ut`, which covers physical memory from `paddr`
    /// on.
    pub fn new(ut: Untyped, paddr: usize) -> (r: DeviceBlock)
        requires
            kernel::PAGE_4K_BITS <= ut@.size_bits < usize::BITS,
            paddr + pow2(ut@.size_bits as nat) <= usize::MAX,
        ensures
            r.wf(),
            r@ == (DeviceBlockView {
                paddr,
                size_bits: ut@.size_bits,
                blocks: seq![
                    SubblockView {
                        paddr,
                        size_bits: ut@.size_bits,
                        state: BlockState::Available(ut@),
                    },
                ],
            }),
    {
        let bits = ut.size_bits();
        let mut caps = LinkedList::empty();
        let block = Subblock::new(ut, paddr);
        let _ = caps.pushmut(block);
        let r = DeviceBlock { caps, count: 1, size_bits: bits, paddr };
        assert(r@.blocks =~= seq![block@]);
        r
    }

    pub fn start(&self) -> (r: usize)
        ensures
            r == self@.paddr,
    {
        self.paddr
    }

    pub fn len(&self) -> (r: usize)
        requires
            self.wf(),
        ensures
            r == pow2(self@.size_bits as nat),
    {
        bytes_of_bits(self.size_bits)
    }

    pub fn end(&self) -> (r: usize)
        requires
            self.wf(),
        ensures
            r == self@.span().end,
    {
        self.paddr + self.len()
    }

    pub fn contains(&self, addr: usize) -> (r: bool)
        requires
            self.wf(),
        ensures
            r == self@.contains(addr),
    {
        self.start() <= addr && addr < self.end()
    }

    /// How many blocks the list holds.
    pub fn block_count(&self) -> (r: usize)
        requires
            self.wf(),
        ensures
            r == self@.blocks.len(),
    {
        self.count
    }

    /// The `i`th block of the list: its address, its size in bits, and whether its
    /// untyped is at hand.
    pub fn block_at(&self, i: usize) -> (r: Option<(usize, u8, bool)>)
        requires
            self.wf(),
        ensures
            i >= self@.blocks.len() ==> r is None,
            i < self@.blocks.len() ==> r == Some(
                (
                    self@.blocks[i as int].paddr,
                    self@.blocks[i as int].size_bits,
                    self@.blocks[i as int].state is Available,
                ),
            ),
    {
        match self.caps.get(i) {
            Some(b) => {
                assert(self@.blocks[i as int] == b@);
                assert(self.caps@[i as int].wf());
                Some((b.start(), b.size_bits, b.is_available()))
            },
            None => None,
        }
    }

    /// Whether the block at `i` is larger than a page.
    fn needs_split_at(&self, i: usize) -> (r: bool)
        requires
            self.wf(),
            i < self@.blocks.len(),
        ensures
            r == (self@.blocks[i as int].size_bits != kernel::PAGE_4K_BITS),
    {
        match self.caps.get(i) {
            Some(b) => {
                assert(self@.blocks[i as int] == b@);
                assert(self.caps@[i as int].wf());
                b.needs_split()
            },
            None => false,
        }
    }

    /// Finds the first block that holds `addr`, whose untyped must be at hand.
    fn device_scan(&self, addr: usize) -> (r: Result<usize, KError>)
        requires
            self.wf(),
            self@.contains(addr),
        ensures
            lookup(self@.blocks, addr) < self@.blocks.len(),
            self@.leaf(addr).state is Available ==> r == Ok::<usize, KError>(
                lookup(self@.blocks, addr) as usize,
            ),
            !(self@.leaf(addr).state is Available) ==> r == Err::<usize, KError>(
                KError::FailedLookup,
            ),
    {
        let holds = |b: &Subblock| -> (ok: bool)
            requires
                b.wf(),
            ensures
                ok == b@.contains(addr),
            { b.contains(addr) };
        proof {
            lemma_lookup_finds(self@.blocks, self@.span(), addr);
            lemma_lookup(self@.blocks, addr);
        }
        match self.caps.find_and_index(holds) {
            Some((index, found)) => {
                proof {
                    assert forall|j: int| 0 <= j < index implies !(#[trigger] self@.blocks[j]).contains(
                        addr,
                    ) by {
                        assert(holds.ensures((&self.caps@[j],), false));
                    }
                    assert(self@.blocks[index as int] == found@);
                    lemma_lookup_is(self@.blocks, addr, index as int);
                }
                if found.is_available() {
                    Ok(index)
                } else {
                    Err(KError::FailedLookup)
                }
            },
            None => {
                proof {
                    let i = lookup(self@.blocks, addr);
                    assert(holds.ensures((&self.caps@[i],), false));
                    assert(self@.blocks[i] == self.caps@[i]@);
                }
                vstd::pervasive::unreached()
            },
        }
    }

    /// Puts the two halves of a block in front of the list, the one that holds `paddr`
    /// first.
    fn device_split_iter(ll: &mut LinkedList<Subblock>, earlier: Subblock, later: Subblock, paddr: usize)
        requires
            earlier.wf(),
            later.wf(),
            earlier@.contains(paddr) != later@.contains(paddr),
        ensures
            later@.contains(paddr) ==> block_views(final(ll)@) == seq![later@, earlier@]
                + block_views(old(ll)@) && final(ll)@ == seq![later, earlier] + old(ll)@,
            !later@.contains(paddr) ==> block_views(final(ll)@) == seq![earlier@, later@]
                + block_views(old(ll)@) && final(ll)@ == seq![earlier, later] + old(ll)@,
    {
        let later_has_paddr: bool = later.contains(paddr);
        if later_has_paddr {
            let _ = ll.pushmut(earlier);
            let _ = ll.pushmut(later);
            assert(ll@ =~= seq![later, earlier] + old(ll)@);
            assert(block_views(ll@) =~= seq![later@, earlier@] + block_views(old(ll)@));
        } else {
            let _ = ll.pushmut(later);
            let _ = ll.pushmut(earlier);
            assert(ll@ =~= seq![earlier, later] + old(ll)@);
            assert(block_views(ll@) =~= seq![earlier@, later@] + block_views(old(ll)@));
        }
    }

    /// One step towards the page that holds `addr`: the block at `i`, which holds it, is
    /// taken if it is a page and split if it is larger.
    fn iter_i<S: Syscalls>(&mut self, i: usize, addr: usize, slots: &mut SlotAllocator, k: &mut Machine<S>) -> (r:
        Result<Option<Untyped>, KError>)
        requires
            old(self).wf(),
            old(slots).wf(),
            i == lookup(old(self)@.blocks, addr),
            i < old(self)@.blocks.len(),
            old(self)@.blocks[i as int].state is Available,
        ensures
            final(self).wf(),
            final(slots).wf(),
            final(slots).free().subset_of(old(slots).free()),
            final(self)@.paddr == old(self)@.paddr,
            final(self)@.size_bits == old(self)@.size_bits,
            old(self)@.leaf(addr).size_bits == kernel::PAGE_4K_BITS ==> (r matches Ok(Some(ut))
                && old(self)@.leaf(addr).state == BlockState::Available(ut@) && final(self)@
                == old(self)@.with_leaf(addr, BlockState::Taken) && final(slots)@ == old(slots)@),
            old(self)@.leaf(addr).size_bits != kernel::PAGE_4K_BITS ==> !(r matches Ok(Some(_))),
            r matches Ok(None) ==> first_fit(old(slots)@, 2) < old(slots)@.len()
                && final(self)@.blocks == with_halves(
                old(self)@.blocks,
                i as int,
                old(slots)@[first_fit(old(slots)@, 2)].start,
                addr,
            ) && final(slots)@ == take_n(old(slots)@, 2),
            r matches Err(err) ==> err != KError::NoError && final(self)@ == old(self)@
                && final(slots).free() == old(slots).free(),
            old(self)@.leaf(addr).size_bits != kernel::PAGE_4K_BITS && (first_fit(old(slots)@, 2)
                >= old(slots)@.len() || old(self)@.blocks.len() + 2 > usize::MAX) ==> r == Err::<
                Option<Untyped>,
                KError,
            >(KError::NotEnoughMemory),
            old(self)@.leaf(addr).size_bits == kernel::PAGE_4K_BITS ==> final(k)@ == old(k)@,
            extends(old(k)@, final(k)@),
            old(self)@.leaf(addr).size_bits != kernel::PAGE_4K_BITS
                && first_fit(old(slots)@, 2) < old(slots)@.len()
                && old(self)@.blocks.len() + 2 <= usize::MAX ==> (r is Ok <==> agreed(
                old(k)@,
                final(k)@,
            )) && (r matches Err(err) ==> err == verdict(last_answer(final(k)@)))
                && final(k)@.len() == old(k)@.len() + 4,
            old(self)@.leaf(addr).size_bits != kernel::PAGE_4K_BITS && (first_fit(old(slots)@, 2)
                >= old(slots)@.len() || old(self)@.blocks.len() + 2 > usize::MAX) ==> final(k)@
                == old(k)@ && final(slots)@ == old(slots)@,
            old(self)@.leaf(addr).size_bits != kernel::PAGE_4K_BITS
                && first_fit(old(slots)@, 2) < old(slots)@.len()
                && old(self)@.blocks.len() + 2 <= usize::MAX && r is Err ==> final(slots)@
                == taken_and_back(old(slots)@, 2),
    {
        if self.needs_split_at(i) && self.count > usize::MAX - 2 {
            return Err(KError::NotEnoughMemory);
        }
        let ghost before = self.caps@;
        let ghost views = self@.blocks;
        proof {
            lemma_lookup(views, addr);
            assert(views[i as int] == before[i as int]@);
            assert(before[i as int].wf());
            if first_fit(slots@, 2) < slots@.len() {
                lemma_take(slots@, 2);
            }
        }
        let page = self.caps.get_mut(i).unwrap().try_use_as_page(slots, k);
        let ghost changed = self.caps@;
        assert(changed.len() == before.len());
        assert(forall|j: int| 0 <= j < changed.len() && j != i ==> changed[j] == before[j]);
        assert(changed[i as int].wf());
        assert forall|j: int| 0 <= j < changed.len() implies (#[trigger] changed[j]).wf() by {
            if j != i {
                assert(before[j].wf());
            }
        }
        assert(block_views(changed) =~= views.update(i as int, changed[i as int]@));
        match page {
            Err(err) => {
                assert(changed[i as int]@ == views[i as int]);
                assert(block_views(changed) =~= views);
                assert(self@ == old(self)@);
                Err(err)
            },
            Ok(Ok(ut)) => {
                proof {
                    lemma_leaf_keeps_tree(views, self@.span(), i as int, BlockState::Taken);
                }
                Ok(Some(ut))
            },
            Ok(Err((earlier, later))) => {
                let ghost slot = old(slots)@[first_fit(old(slots)@, 2)].start;
                proof {
                    lemma_halves(views[i as int], slot, slot + 1);
                    lemma_split_keeps_tree(views, self@.span(), i as int, slot, addr);
                }
                DeviceBlock::device_split_iter(&mut self.caps, earlier, later, addr);
                self.count = self.count + 2;
                proof {
                    assert(self@.blocks =~= with_halves(views, i as int, slot, addr));
                    assert forall|j: int| 0 <= j < self.caps@.len() implies (
                    #[trigger] self.caps@[j]).wf() by {
                        if j >= 2 {
                            assert(self.caps@[j] == changed[j - 2]);
                        }
                    }
                }
                Ok(None)
            },
        }
    }

    /// Walks down from the first block that holds `addr`, splitting as it goes, to the
    /// page that holds it.
    fn get_device_page_untyped_ll<S: Syscalls>(
        &mut self,
        addr: usize,
        slots: &mut SlotAllocator,
        k: &mut Machine<S>,
    ) -> (r: Result<Untyped, KError>)
        requires
            old(self).wf(),
            old(slots).wf(),
            old(self)@.contains(addr),
        ensures
            final(self).wf(),
            final(slots).wf(),
            final(slots).free().subset_of(old(slots).free()),
            final(self)@.paddr == old(self)@.paddr,
            final(self)@.size_bits == old(self)@.size_bits,
            !(old(self)@.leaf(addr).state is Available) ==> r == Err::<Untyped, KError>(
                KError::FailedLookup,
            ) && final(self)@ == old(self)@ && final(slots)@ == old(slots)@,
            r matches Ok(ut) ==> ut@.size_bits == kernel::PAGE_4K_BITS && lookup(
                final(self)@.blocks,
                addr,
            ) < final(self)@.blocks.len() && final(self)@.leaf(addr).state is Taken
                && final(self)@.leaf(addr).size_bits == kernel::PAGE_4K_BITS
                && final(self)@.blocks.len()
                == old(self)@.blocks.len() + 2 * (old(self)@.leaf(addr).size_bits - kernel::PAGE_4K_BITS),
            r is Ok && old(self)@.leaf(addr).size_bits == kernel::PAGE_4K_BITS
                ==> old(self)@.leaf(addr).state == BlockState::Available(r.unwrap()@)
                && final(self)@ == old(self)@.with_leaf(addr, BlockState::Taken) && final(slots)@
                == old(slots)@,
            r matches Err(err) ==> err != KError::NoError,
            old(self)@.leaf(addr).state is Available && old(self)@.leaf(addr).size_bits
                == kernel::PAGE_4K_BITS ==> r is Ok,
            !(old(self)@.leaf(addr).state is Available) || old(self)@.leaf(addr).size_bits
                == kernel::PAGE_4K_BITS ==> final(k)@ == old(k)@,
            extends(old(k)@, final(k)@),
            old(self)@.leaf(addr).state is Available && slots_for_walk(
                old(slots)@,
                (old(self)@.leaf(addr).size_bits - kernel::PAGE_4K_BITS) as nat,
            ) && old(self)@.blocks.len() + 2 * (old(self)@.leaf(addr).size_bits - kernel::PAGE_4K_BITS)
                <= usize::MAX && agreed(old(k)@, final(k)@) ==> r is Ok && (
                final(self)@.blocks,
                final(slots)@,
                r.unwrap()@,
            ) == walked(
                old(self)@.blocks,
                old(slots)@,
                addr,
                (old(self)@.leaf(addr).size_bits - kernel::PAGE_4K_BITS) as nat,
            ),
            r is Err && old(self)@.leaf(addr).state is Available ==> walk_failed(
                old(self)@,
                old(slots)@,
                addr,
                old(k)@,
                final(k)@,
                final(self)@,
                final(slots)@,
                r->Err_0,
            ),
            r is Err && old(self)@.leaf(addr).state is Available ==> final(slots).free() == points(
                split_down(
                    old(self)@.blocks,
                    old(slots)@,
                    addr,
                    splits_done(old(k)@, final(k)@) as nat,
                ).1,
            ),
            r is Ok ==> final(slots)@ == split_down(
                old(self)@.blocks,
                old(slots)@,
                addr,
                (old(self)@.leaf(addr).size_bits - kernel::PAGE_4K_BITS) as nat,
            ).1,
            r is Ok ==> old(self)@.leaf(addr).state is Available && slots_for_walk(
                old(slots)@,
                (old(self)@.leaf(addr).size_bits - kernel::PAGE_4K_BITS) as nat,
            ) && agreed(old(k)@, final(k)@) && final(k)@.len()
                == old(k)@.len() + 4 * (old(self)@.leaf(addr).size_bits - kernel::PAGE_4K_BITS),
            old(self)@.leaf(addr).state is Available ==> final(k)@.len() <= old(k)@.len() + 4 * (
            old(self)@.leaf(addr).size_bits - kernel::PAGE_4K_BITS),
    {
        let mut ri = match self.device_scan(addr) {
            Ok(ri) => ri,
            Err(err) => {
                return Err(err);
            },
        };
        let ghost first_bits = self@.leaf(addr).size_bits;
        proof {
            lemma_lookup(self@.blocks, addr);
        }
        loop
            invariant
                extends(old(k)@, k@),
                self.wf(),
                slots.wf(),
                slots.free().subset_of(old(slots).free()),
                self@.paddr == old(self)@.paddr,
                self@.size_bits == old(self)@.size_bits,
                ri == lookup(self@.blocks, addr),
                ri < self@.blocks.len(),
                self@.blocks[ri as int].state is Available,
                first_bits == old(self)@.leaf(addr).size_bits,
                kernel::PAGE_4K_BITS <= self@.leaf(addr).size_bits <= first_bits,
                self@.blocks.len() + 2 * (self@.leaf(addr).size_bits - kernel::PAGE_4K_BITS)
                    == old(self)@.blocks.len() + 2 * (first_bits - kernel::PAGE_4K_BITS),
                self@.leaf(addr).size_bits == first_bits ==> self@ == old(self)@ && slots@
                    == old(slots)@
                    && k@ == old(k)@,
                old(self)@.leaf(addr).state is Available,
                agreed(old(k)@, k@),
                k@.len() == old(k)@.len() + 4 * (first_bits - self@.leaf(addr).size_bits),
                slots_for_walk(old(slots)@, (first_bits - kernel::PAGE_4K_BITS) as nat)
                    == slots_for_walk(
                    slots@,
                    (self@.leaf(addr).size_bits - kernel::PAGE_4K_BITS) as nat,
                ),
                (self@.blocks, slots@) == split_down(
                    old(self)@.blocks,
                    old(slots)@,
                    addr,
                    (first_bits - self@.leaf(addr).size_bits) as nat,
                ),
                slots_for_walk(old(slots)@, (first_bits - kernel::PAGE_4K_BITS) as nat) && agreed(
                    old(k)@,
                    k@,
                ) ==> slots_for_walk(
                    slots@,
                    (self@.leaf(addr).size_bits - kernel::PAGE_4K_BITS) as nat,
                ) && walked(
                    self@.blocks,
                    slots@,
                    addr,
                    (self@.leaf(addr).size_bits - kernel::PAGE_4K_BITS) as nat,
                ) == walked(
                    old(self)@.blocks,
                    old(slots)@,
                    addr,
                    (first_bits - kernel::PAGE_4K_BITS) as nat,
                ),
            decreases self@.leaf(addr).size_bits,
        {
            let ghost before = self@;
            let ghost slots_before = slots@;
            let ghost k_before = k@;
            proof {
                self.lemma_wf();
                lemma_lookup(before.blocks, addr);
            }
            let step = self.iter_i(ri, addr, slots, k);
            proof {
                lemma_agreed_parts(old(k)@, k_before, k@);
            }
            match step {
                Ok(Some(ut)) => {
                    proof {
                        let taken = before.with_leaf(addr, BlockState::Taken);
                        assert(taken.blocks[ri as int].contains(addr));
                        assert forall|j: int| 0 <= j < ri implies !(#[trigger] taken.blocks[j]).contains(
                            addr,
                        ) by {
                            lemma_lookup(before.blocks, addr);
                            assert(taken.blocks[j] == before.blocks[j]);
                        }
                        lemma_lookup_is(taken.blocks, addr, ri as int);
                    }
                    return Ok(ut);
                },
                Ok(None) => {
                    proof {
                        let slot = slots_before[first_fit(slots_before, 2)].start;
                        lemma_take(slots_before, 2);
                        lemma_split_keeps_tree(before.blocks, before.span(), ri as int, slot, addr);
                    }
                    ri = 0;
                },
                Err(err) => {
                    return Err(err);
                },
            }
        }
    }

    /// Hands out the untyped of the page that holds `addr`. Blocks on the way to the page
    /// are split in halves; each split takes two slots from `slots`. Fails with
    /// `FailedLookup` where the first block that holds `addr` has no untyped at hand.
    pub fn get_device_page_untyped<S: Syscalls>(
        &mut self,
        addr: usize,
        slots: &mut SlotAllocator,
        k: &mut Machine<S>,
    ) -> (r: Result<Untyped, KError>)
        requires
            old(self).wf(),
            old(slots).wf(),
            old(self)@.contains(addr),
        ensures
            final(self).wf(),
            final(slots).wf(),
            final(slots).free().subset_of(old(slots).free()),
            final(self)@.paddr == old(self)@.paddr,
            final(self)@.size_bits == old(self)@.size_bits,
            !(old(self)@.leaf(addr).state is Available) ==> r == Err::<Untyped, KError>(
                KError::FailedLookup,
            ) && final(self)@ == old(self)@ && final(slots)@ == old(slots)@,
            r matches Ok(ut) ==> ut@.size_bits == kernel::PAGE_4K_BITS && lookup(
                final(self)@.blocks,
                addr,
            ) < final(self)@.blocks.len() && final(self)@.leaf(addr).state is Taken
                && final(self)@.leaf(addr).size_bits == kernel::PAGE_4K_BITS
                && final(self)@.blocks.len()
                == old(self)@.blocks.len() + 2 * (old(self)@.leaf(addr).size_bits - kernel::PAGE_4K_BITS),
            r is Ok && old(self)@.leaf(addr).size_bits == kernel::PAGE_4K_BITS
                ==> old(self)@.leaf(addr).state == BlockState::Available(r.unwrap()@)
                && final(self)@ == old(self)@.with_leaf(addr, BlockState::Taken) && final(slots)@
                == old(slots)@,
            r matches Err(err) ==> err != KError::NoError,
            old(self)@.leaf(addr).state is Available && old(self)@.leaf(addr).size_bits
                == kernel::PAGE_4K_BITS ==> r is Ok,
            !(old(self)@.leaf(addr).state is Available) || old(self)@.leaf(addr).size_bits
                == kernel::PAGE_4K_BITS ==> final(k)@ == old(k)@,
            extends(old(k)@, final(k)@),
            old(self)@.leaf(addr).state is Available && slots_for_walk(
                old(slots)@,
                (old(self)@.leaf(addr).size_bits - kernel::PAGE_4K_BITS) as nat,
            ) && old(self)@.blocks.len() + 2 * (old(self)@.leaf(addr).size_bits - kernel::PAGE_4K_BITS)
                <= usize::MAX && agreed(old(k)@, final(k)@) ==> r is Ok && (
                final(self)@.blocks,
                final(slots)@,
                r.unwrap()@,
            ) == walked(
                old(self)@.blocks,
                old(slots)@,
                addr,
                (old(self)@.leaf(addr).size_bits - kernel::PAGE_4K_BITS) as nat,
            ),
            r is Err && old(self)@.leaf(addr).state is Available ==> walk_failed(
                old(self)@,
                old(slots)@,
                addr,
                old(k)@,
                final(k)@,
                final(self)@,
                final(slots)@,
                r->Err_0,
            ),
            r is Err && old(self)@.leaf(addr).state is Available ==> final(slots).free() == points(
                split_down(
                    old(self)@.blocks,
                    old(slots)@,
                    addr,
                    splits_done(old(k)@, final(k)@) as nat,
                ).1,
            ),
            r is Ok ==> final(slots)@ == split_down(
                old(self)@.blocks,
                old(slots)@,
                addr,
                (old(self)@.leaf(addr).size_bits - kernel::PAGE_4K_BITS) as nat,
            ).1,
            r is Ok ==> old(self)@.leaf(addr).state is Available && slots_for_walk(
                old(slots)@,
                (old(self)@.leaf(addr).size_bits - kernel::PAGE_4K_BITS) as nat,
            ) && agreed(old(k)@, final(k)@) && final(k)@.len()
                == old(k)@.len() + 4 * (old(self)@.leaf(addr).size_bits - kernel::PAGE_4K_BITS),
            old(self)@.leaf(addr).state is Available ==> final(k)@.len() <= old(k)@.len() + 4 * (
            old(self)@.leaf(addr).size_bits - kernel::PAGE_4K_BITS),
    {
        self.get_device_page_untyped_ll(addr, slots, k)
    }

    /// Takes back the untyped of the page that holds `addr`, which was handed out.
    pub fn return_device_page_untyped(&mut self, addr: usize, untyped: Untyped)
        requires
            old(self).wf(),
            old(self)@.contains(addr),
            untyped@.size_bits == kernel::PAGE_4K_BITS,
            old(self)@.leaf(addr).state is Taken,
            old(self)@.leaf(addr).size_bits == kernel::PAGE_4K_BITS,
        ensures
            final(self).wf(),
            final(self)@ == old(self)@.with_leaf(addr, BlockState::Available(untyped@)),
    {
        let holds = |b: &Subblock| -> (ok: bool)
            requires
                b.wf(),
            ensures
                ok == b@.contains(addr),
            { b.contains(addr) };
        let ghost before = self.caps@;
        let ghost views = self@.blocks;
        let ghost at = lookup(views, addr);
        proof {
            lemma_lookup_finds(views, self@.span(), addr);
            lemma_lookup(views, addr);
        }
        match self.caps.find_mut(holds) {
            Some(found) => {
                proof {
                    let i = choose|i: int| #[trigger]
                        is_first_match(before, holds, i) && *found == before[i];
                    assert forall|j: int| 0 <= j < i implies !(#[trigger] views[j]).contains(
                        addr,
                    ) by {
                        assert(holds.ensures((&before[j],), false));
                    }
                    assert(views[i] == before[i]@);
                    lemma_lookup_is(views, addr, i);
                }
                found.return_taken(untyped);
            },
            None => {
                proof {
                    assert(holds.ensures((&before[at],), false));
                    assert(views[at] == before[at]@);
                }
                vstd::pervasive::unreached()
            },
        }
        proof {
            let i = choose|i: int| #[trigger]
                is_first_match(before, holds, i) && self.caps@ == before.update(
                    i,
                    self.caps@[i],
                ) && self.caps@[i]@ == (SubblockView {
                    state: BlockState::Available(untyped@),
                    ..before[i]@
                }) && self.caps@[i].wf();
            assert forall|j: int| 0 <= j < i implies !(#[trigger] views[j]).contains(addr) by {
                assert(holds.ensures((&before[j],), false));
            }
            assert(views[i] == before[i]@);
            lemma_lookup_is(views, addr, i);
            assert(self@.blocks =~= views.update(
                at,
                SubblockView { state: BlockState::Available(untyped@), ..views[at] },
            ));
            lemma_leaf_keeps_tree(views, self@.span(), at, BlockState::Available(untyped@));
        }
    }

    /// Makes the frame of the page that holds `addr` in the slot `slot`. On failure the
    /// slot comes back.
    pub fn get_device_page<S: Syscalls>(
        &mut self,
        addr: usize,
        slot: CapSlot,
        slots: &mut SlotAllocator,
        k: &mut Machine<S>,
    ) -> (r: Result<Page4K, (KError, CapSlot)>)
        requires
            old(self).wf(),
            old(slots).wf(),
            old(self)@.contains(addr),
            slot@ < usize::MAX,
        ensures
            final(self).wf(),
            final(slots).wf(),
            final(slots).free().subset_of(old(slots).free()),
            final(self)@.paddr == old(self)@.paddr,
            final(self)@.size_bits == old(self)@.size_bits,
            !(old(self)@.leaf(addr).state is Available) ==> (r matches Err((err, back)) && err
                == KError::FailedLookup && back@ == slot@ && final(self)@ == old(self)@
                    && final(slots)@ == old(slots)@),
            r matches Ok(page) ==> page@.slot == slot@ && page@.parent.size_bits
                == kernel::PAGE_4K_BITS
                    && lookup(final(self)@.blocks, addr) < final(self)@.blocks.len()
                    && final(self)@.leaf(addr).state is Taken && final(self)@.leaf(
                addr,
            ).size_bits == kernel::PAGE_4K_BITS && final(self)@.blocks.len()
                == old(self)@.blocks.len() + 2 * (old(self)@.leaf(addr).size_bits - kernel::PAGE_4K_BITS),
            r is Ok && old(self)@.leaf(addr).size_bits == kernel::PAGE_4K_BITS
                ==> old(self)@.leaf(addr).state == BlockState::Available(r.unwrap()@.parent)
                && final(self)@
                == old(self)@.with_leaf(addr, BlockState::Taken) && final(slots)@ == old(slots)@,
            r matches Err((err, back)) ==> err != KError::NoError && back@ == slot@,
            r is Err && old(self)@.leaf(addr).size_bits == kernel::PAGE_4K_BITS ==> final(self)@
                == old(self)@ && final(slots)@ == old(slots)@,
            !(old(self)@.leaf(addr).state is Available) ==> final(k)@ == old(k)@,
            old(self)@.leaf(addr).state is Available && old(self)@.leaf(addr).size_bits
                == kernel::PAGE_4K_BITS ==> (r is Ok <==> verdict(last_answer(final(k)@))
                == KError::NoError) && (r matches Err((err, _)) ==> err
                    == verdict(last_answer(final(k)@)))
                && retyped(
                old(k)@,
                old(self)@.leaf(addr).state->Available_0.slot,
                ObjectType::X864K,
                0,
                slot@ as int,
                1,
                final(k)@,
            ),
            extends(old(k)@, final(k)@),
            old(self)@.leaf(addr).state is Available && slots_for_walk(
                old(slots)@,
                (old(self)@.leaf(addr).size_bits - kernel::PAGE_4K_BITS) as nat,
            ) && old(self)@.blocks.len() + 2 * (old(self)@.leaf(addr).size_bits - kernel::PAGE_4K_BITS)
                <= usize::MAX && agreed(old(k)@, final(k)@) ==> r is Ok && (
                final(self)@.blocks,
                final(slots)@,
                r.unwrap()@.parent,
            ) == walked(
                old(self)@.blocks,
                old(slots)@,
                addr,
                (old(self)@.leaf(addr).size_bits - kernel::PAGE_4K_BITS) as nat,
            ),
            r is Err && old(self)@.leaf(addr).state is Available ==> page_failed(
                old(self)@,
                old(slots)@,
                addr,
                old(k)@,
                final(k)@,
                final(self)@,
                final(slots)@,
                r->Err_0.0,
            ),
            r is Err && old(self)@.leaf(addr).state is Available ==> final(slots).free() == points(
                split_down(
                    old(self)@.blocks,
                    old(slots)@,
                    addr,
                    splits_done(old(k)@, final(k)@) as nat,
                ).1,
            ),
            r is Ok ==> final(slots)@ == split_down(
                old(self)@.blocks,
                old(slots)@,
                addr,
                (old(self)@.leaf(addr).size_bits - kernel::PAGE_4K_BITS) as nat,
            ).1,
            old(self)@.leaf(addr).state is Available ==> final(k)@.len() <= old(k)@.len() + 4 * (
            old(self)@.leaf(addr).size_bits - kernel::PAGE_4K_BITS) + 4,
            r is Ok ==> old(self)@.leaf(addr).state is Available && slots_for_walk(
                old(slots)@,
                (old(self)@.leaf(addr).size_bits - kernel::PAGE_4K_BITS) as nat,
            ) && agreed(old(k)@, final(k)@) && final(k)@.len()
                == old(k)@.len() + 4 * (old(self)@.leaf(addr).size_bits - kernel::PAGE_4K_BITS) + 4,
    {
        let found = self.get_device_page_untyped(addr, slots, k);
        let ghost k1 = k@;
        match found {
            Ok(untyped) => {
                let ghost mid = self@;
                proof {
                    old(self).lemma_wf();
                }
                let made = untyped.become_page_4k(slot, k);
                proof {
                    lemma_agreed_parts(old(k)@, k1, k@);
                }
                match made {
                    Ok(page) => Ok(page),
                    Err((err, untyped, slot)) => {
                        proof {
                            self.lemma_wf();
                            lemma_lookup(mid.blocks, addr);
                        }
                        self.return_device_page_untyped(addr, untyped);
                        proof {
                            if old(self)@.leaf(addr).size_bits == kernel::PAGE_4K_BITS {
                                let at = lookup(old(self)@.blocks, addr);
                                lemma_lookup(old(self)@.blocks, addr);
                                lemma_lookup_finds(old(self)@.blocks, old(self)@.span(), addr);
                                lemma_lookup_same(old(self)@.blocks, addr, at, BlockState::Taken);
                                assert(self@.blocks =~= old(self)@.blocks);
                            }
                        }
                        Err((err, slot))
                    },
                }
            },
            Err(err) => Err((err, slot)),
        }
    }

    /// Takes back a frame of this device block, mapped nowhere: the kernel deletes it,
    /// its untyped goes back to the page that holds `addr`, and its slot comes back.
    pub fn return_device_page<S: Syscalls>(&mut self, addr: usize, page: Page4K, k: &mut Machine<S>) -> (r:
        CapSlot)
        requires
            old(self).wf(),
            old(self)@.contains(addr),
            page@.parent.size_bits == kernel::PAGE_4K_BITS,
            old(self)@.leaf(addr).state is Taken,
            old(self)@.leaf(addr).size_bits == kernel::PAGE_4K_BITS,
        ensures
            final(self).wf(),
            final(self)@ == old(self)@.with_leaf(addr, BlockState::Available(page@.parent)),
            r@ == page@.slot,
            deleted(old(k)@, page@.slot, final(k)@),
            extends(old(k)@, final(k)@),
    {
        let (ut, cs) = page.free(k);
        self.return_device_page_untyped(addr, ut);
        cs
    }
}

/// The views of a list of device blocks.
pub open spec fn device_views(list: Seq<DeviceBlock>) -> Seq<DeviceBlockView> {
    list.map_values(|d: DeviceBlock| d@)
}

/// The position of the first device block that holds `addr`; the list's length if none
/// does.
pub open spec fn which(devices: Seq<DeviceBlockView>, addr: usize) -> int
    decreases devices.len(),
{
    if devices.len() == 0 {
        0
    } else if devices[0].contains(addr) {
        0
    } else {
        1 + which(devices.skip(1), addr)
    }
}

pub proof fn lemma_which(devices: Seq<DeviceBlockView>, addr: usize)
    ensures
        0 <= which(devices, addr) <= devices.len(),
        which(devices, addr) < devices.len() ==> devices[which(devices, addr)].contains(addr),
        forall|j: int| 0 <= j < which(devices, addr) ==> !(#[trigger] devices[j]).contains(addr),
    decreases devices.len(),
{
    if devices.len() > 0 && !devices[0].contains(addr) {
        lemma_which(devices.skip(1), addr);
        assert forall|j: int| 0 <= j < which(devices, addr) implies !(
        #[trigger] devices[j]).contains(addr) by {
            if j > 0 {
                assert(devices.skip(1)[j - 1] == devices[j]);
            }
        }
    }
}

/// The first device block that holds `addr` is where `which` says.
pub proof fn lemma_which_is(devices: Seq<DeviceBlockView>, addr: usize, i: int)
    requires
        0 <= i < devices.len(),
        devices[i].contains(addr),
        forall|j: int| 0 <= j < i ==> !(#[trigger] devices[j]).contains(addr),
    ensures
        which(devices, addr) == i,
{
    lemma_which(devices, addr);
}

/// The device blocks lie in the order of their addresses and do not overlap.
pub open spec fn ascending(devices: Seq<DeviceBlockView>) -> bool {
    forall|i: int, j: int|
        0 <= i < j < devices.len() ==> (#[trigger] devices[i]).span().end <= (
        #[trigger] devices[j]).span().start
}

/// Every device block of the list is well-formed, and they lie in the order of their
/// addresses.
pub closed spec fn list_ok(list: Seq<DeviceBlock>) -> bool {
    &&& forall|i: int| 0 <= i < list.len() ==> (#[trigger] list[i]).wf()
    &&& ascending(device_views(list))
}

/// The device memory of the machine: one device block for each device untyped of the
/// boot information, lowest address first.
pub struct Devices {
    list: LinkedList<DeviceBlock>,
}

impl Devices {
    pub closed spec fn view(&self) -> Seq<DeviceBlockView> {
        device_views(self.list@)
    }

    pub closed spec fn wf(&self) -> bool {
        list_ok(self.list@)
    }

    pub proof fn lemma_wf(&self)
        requires
            self.wf(),
        ensures
            forall|i: int| 0 <= i < self@.len() ==> (#[trigger] self@[i]).wf(),
            ascending(self@),
    {
        assert forall|i: int| 0 <= i < self@.len() implies (#[trigger] self@[i]).wf() by {
            self.list@[i].lemma_wf();
        }
    }

    /// No device memory.
    pub fn new() -> (r: Devices)
        ensures
            r.wf(),
            r@.len() == 0,
    {
        Devices { list: LinkedList::empty() }
    }

    /// The `i`th device block.
    pub fn block(&self, i: usize) -> (r: Option<&DeviceBlock>)
        requires
            self.wf(),
        ensures
            i >= self@.len() ==> r is None,
            i < self@.len() ==> (r matches Some(d) && d@ == self@[i as int] && d.wf()),
    {
        let r = self.list.get(i);
        proof {
            if i < self@.len() {
                assert(self.list@[i as int].wf());
            }
        }
        r
    }
}

/// The device block `after` is the device block `before` after an operation that keeps
/// where it lies.
pub open spec fn same_place(before: DeviceBlockView, after: DeviceBlockView) -> bool {
    after.paddr == before.paddr && after.size_bits == before.size_bits
}

/// The first device block that holds `addr`, for changing it in place.
pub fn get_containing_block(devices: &mut Devices, addr: usize) -> (r: Option<&mut DeviceBlock>)
    requires
        old(devices).wf(),
    ensures
        which(old(devices)@, addr) >= old(devices)@.len() ==> r is None && final(devices)@
            == old(devices)@ && final(devices).wf(),
        which(old(devices)@, addr) < old(devices)@.len() ==> r is Some && r.unwrap().wf()
            && r.unwrap()@ == old(devices)@[which(old(devices)@, addr)] && final(devices)@
                == old(devices)@.update(which(old(devices)@, addr), final(r.unwrap())@)
                && (final(r.unwrap()).wf()
            && same_place(r.unwrap()@, final(r.unwrap())@) ==> final(devices).wf()),
{
    let holds = |d: &DeviceBlock| -> (ok: bool)
        requires
            d.wf(),
        ensures
            ok == d@.contains(addr),
        { d.contains(addr) };
    let ghost before = devices.list@;
    let ghost views = devices@;
    let ghost at = which(views, addr);
    proof {
        lemma_which(views, addr);
        assert forall|i: int| #[trigger] is_first_match(before, holds, i) implies i == at by {
            assert(views[i] == before[i]@);
            if i < at {
                assert(views[i].contains(addr));
            }
            if at < i {
                assert(holds.ensures((&before[at],), false));
                assert(views[at] == before[at]@);
            }
        }
        assert(no_match(before, holds) ==> at >= views.len()) by {
            if no_match(before, holds) && at < views.len() {
                assert(holds.ensures((&before[at],), false));
                assert(views[at] == before[at]@);
            }
        }
        assert forall|i: int, d: DeviceBlock| 0 <= i < before.len() implies device_views(
            #[trigger] before.update(i, d),
        ) == views.update(i, d@) by {
            assert(device_views(before.update(i, d)) =~= views.update(i, d@));
        }
        assert forall|i: int, d: DeviceBlock|
            0 <= i < before.len() && d.wf() && same_place(before[i]@, d@) implies list_ok(
            #[trigger] before.update(i, d),
        ) by {
            let after = before.update(i, d);
            assert(device_views(after) =~= views.update(i, d@));
            assert forall|a: int, b: int| 0 <= a < b < after.len() implies (
            #[trigger] device_views(after)[a]).span().end <= (#[trigger] device_views(
                after,
            )[b]).span().start by {
                assert(views[a].span().end <= views[b].span().start);
                assert(views[a] == before[a]@);
                assert(views[b] == before[b]@);
            }
            assert forall|a: int| 0 <= a < after.len() implies (#[trigger] after[a]).wf() by {
                if a != i {
                    assert(before[a].wf());
                }
            }
        }
        if at < views.len() {
            assert(before[at].wf());
            assert(views[at] == before[at]@);
        }
    }
    devices.list.find_mut(holds)
}

/// Makes the frame of the page of device memory that holds the physical address `addr`.
/// Fails with `FailedLookup` where no device block holds the address, or the page is
/// handed out already. On failure the slot taken for the frame is given back.
pub fn get_device_page<S: Syscalls>(
    devices: &mut Devices,
    slots: &mut SlotAllocator,
    addr: usize,
    k: &mut Machine<S>,
) -> (r: Result<Page4K, KError>)
    requires
        old(devices).wf(),
        old(slots).wf(),
    ensures
        final(devices).wf(),
        final(slots).wf(),
        final(slots).free().subset_of(old(slots).free()),
        final(devices)@.len() == old(devices)@.len(),
        which(old(devices)@, addr) >= old(devices)@.len() ==> r == Err::<Page4K, KError>(
            KError::FailedLookup,
        ) && final(devices)@ == old(devices)@ && final(slots)@ == old(slots)@,
        which(old(devices)@, addr) < old(devices)@.len() && old(slots)@.len() == 0 ==> r == Err::<
            Page4K,
            KError,
        >(KError::NotEnoughMemory) && final(devices)@ == old(devices)@,
        r matches Err(err) ==> err != KError::NoError,
        which(old(devices)@, addr) < old(devices)@.len() ==> {
            let at = which(old(devices)@, addr);
            let before = old(devices)@[at];
            let after = final(devices)@[at];
            &&& final(devices)@ == old(devices)@.update(at, after)
            &&& same_place(before, after)
            &&& r matches Ok(page) ==> page@.slot == old(slots)@[0].start && page@.slot
                < usize::MAX && !final(slots).free().contains(page@.slot as int)
                && page@.parent.size_bits == kernel::PAGE_4K_BITS && lookup(after.blocks, addr)
                < after.blocks.len() && after.leaf(addr).state is Taken && after.leaf(
                addr,
            ).size_bits == kernel::PAGE_4K_BITS && after.blocks.len() == before.blocks.len() + 2
                * (before.leaf(addr).size_bits - kernel::PAGE_4K_BITS)
            &&& before.leaf(addr).size_bits == kernel::PAGE_4K_BITS && r is Ok ==> after
                == before.with_leaf(addr, BlockState::Taken) && before.leaf(addr).state
                == BlockState::Available(r.unwrap()@.parent) && final(slots).free()
                    == old(slots).free().remove(r.unwrap()@.slot as int)
            &&& before.leaf(addr).size_bits == kernel::PAGE_4K_BITS && r is Err ==> after == before
                && final(slots).free() == old(slots).free()
            &&& !(before.leaf(addr).state is Available) ==> r is Err && after == before
        },
        which(old(devices)@, addr) >= old(devices)@.len() || old(slots)@.len() == 0 ==> final(k)@
            == old(k)@,
        which(old(devices)@, addr) < old(devices)@.len() && old(slots)@.len() > 0 ==> {
            let leaf = old(devices)@[which(old(devices)@, addr)].leaf(addr);
            &&& !(leaf.state is Available) ==> final(k)@ == old(k)@
            &&& leaf.state is Available && leaf.size_bits == kernel::PAGE_4K_BITS ==> (r is Ok
                <==> verdict(last_answer(final(k)@)) == KError::NoError)
                    && (r matches Err(err) ==> err
                == verdict(last_answer(final(k)@))) && retyped(
                old(k)@,
                leaf.state->Available_0.slot,
                ObjectType::X864K,
                0,
                old(slots)@[0].start,
                1,
                final(k)@,
            )
        },
        extends(old(k)@, final(k)@),
        which(old(devices)@, addr) < old(devices)@.len() && old(slots)@.len() > 0 ==> {
            let before = old(devices)@[which(old(devices)@, addr)];
            let steps = (before.leaf(addr).size_bits - kernel::PAGE_4K_BITS) as nat;
            let rest = crate::crust::freelist::take_one(old(slots)@);
            before.leaf(addr).state is Available && slots_for_walk(rest, steps)
                && before.blocks.len()
                + 2 * steps <= usize::MAX && agreed(old(k)@, final(k)@) ==> r is Ok && (
                final(devices)@[which(old(devices)@, addr)].blocks,
                final(slots)@,
                r.unwrap()@.parent,
            ) == walked(before.blocks, rest, addr, steps)
        },
        which(old(devices)@, addr) < old(devices)@.len() && old(slots)@.len() > 0 && r is Err ==> {
            let before = old(devices)@[which(old(devices)@, addr)];
            let rest = take_one(old(slots)@);
            let page_slot = unit(old(slots)@[0].start);
            if before.leaf(addr).state is Available {
                &&& page_failed(
                    before,
                    rest,
                    addr,
                    old(k)@,
                    final(k)@,
                    final(devices)@[which(old(devices)@, addr)],
                    page_slots_left(before, rest, addr, old(k)@, final(k)@),
                    r->Err_0,
                )
                &&& final(slots)@ == merge(
                    page_slots_left(before, rest, addr, old(k)@, final(k)@),
                    page_slot,
                )
            } else {
                r->Err_0 == KError::FailedLookup && final(slots)@ == merge(rest, page_slot)
            }
        },
        which(old(devices)@, addr) < old(devices)@.len() && old(slots)@.len() == 0 ==> final(slots)@
            == old(slots)@,
        which(old(devices)@, addr) < old(devices)@.len() && old(slots)@.len() > 0 && r is Err
            ==> final(slots).free().contains(old(slots)@[0].start),
        which(old(devices)@, addr) < old(devices)@.len() && old(slots)@.len() > 0 && r is Err
            && old(devices)@[which(old(devices)@, addr)].leaf(addr).state is Available
            ==> final(slots).free()
            == points(
            split_down(
                old(devices)@[which(old(devices)@, addr)].blocks,
                take_one(old(slots)@),
                addr,
                splits_done(old(k)@, final(k)@) as nat,
            ).1,
        ).insert(old(slots)@[0].start),
        which(old(devices)@, addr) < old(devices)@.len() && old(slots)@.len() > 0
            && old(devices)@[which(old(devices)@, addr)].leaf(addr).state is Available
            ==> final(k)@.len() <= old(k)@.len() + 4 * (old(devices)@[which(old(devices)@, addr)].leaf(addr).size_bits
            - kernel::PAGE_4K_BITS) + 4,
        r is Ok ==> {
            let before = old(devices)@[which(old(devices)@, addr)];
            let steps = (before.leaf(addr).size_bits - kernel::PAGE_4K_BITS) as nat;
            &&& which(old(devices)@, addr) < old(devices)@.len()
            &&& old(slots)@.len() > 0
            &&& before.leaf(addr).state is Available
            &&& slots_for_walk(take_one(old(slots)@), steps)
            &&& agreed(old(k)@, final(k)@)
            &&& final(k)@.len() == old(k)@.len() + 4 * steps + 4
        },
{
    let ghost views = devices@;
    proof {
        lemma_which(views, addr);
    }
    if let Some(block) = get_containing_block(devices, addr) {
        let ghost before = block@;
        let slot = match allocate_cap_slot(slots) {
            Ok(slot) => slot,
            Err(err) => {
                assert(devices@ =~= views);
                return Err(err);
            },
        };
        let ghost mid_free = slots.free();
        proof {
            block.lemma_wf();
            crate::crust::freelist::lemma_take_one_is_take_n(old(slots)@);
        }
        match block.get_device_page(addr, slot, slots, k) {
            Ok(page) => {
                assert(devices@[which(views, addr)] == block@);
                proof {
                    lemma_splits_bounded(before, addr);
                }
                Ok(page)
            },
            Err((err, slot)) => {
                free_cap_slot(slots, slot);
                proof {
                    assert(devices@[which(views, addr)] == block@);
                    if before.leaf(addr).size_bits == kernel::PAGE_4K_BITS || !(before.leaf(
                        addr,
                    ).state is Available) {
                        assert(slots.free() =~= old(slots).free());
                    }
                }
                Err(err)
            },
        }
    } else {
        Err(KError::FailedLookup)
    }
}

/// Takes back a frame of device memory, mapped nowhere: the kernel deletes it, its
/// untyped goes back to the page that holds `addr`, and its slot to the slot allocator.
pub fn return_device_page<S: Syscalls>(
    devices: &mut Devices,
    slots: &mut SlotAllocator,
    addr: usize,
    page: Page4K,
    k: &mut Machine<S>,
)
    requires
        old(devices).wf(),
        old(slots).wf(),
        which(old(devices)@, addr) < old(devices)@.len(),
        old(devices)@[which(old(devices)@, addr)].leaf(addr).state is Taken,
        old(devices)@[which(old(devices)@, addr)].leaf(addr).size_bits == kernel::PAGE_4K_BITS,
        page@.parent.size_bits == kernel::PAGE_4K_BITS,
        page@.slot < usize::MAX,
        !old(slots).free().contains(page@.slot as int),
    ensures
        final(devices).wf(),
        final(slots).wf(),
        final(devices)@ == old(devices)@.update(
            which(old(devices)@, addr),
            old(devices)@[which(old(devices)@, addr)].with_leaf(
                addr,
                BlockState::Available(page@.parent),
            ),
        ),
        final(slots).free() == old(slots).free().insert(page@.slot as int),
        deleted(old(k)@, page@.slot, final(k)@),
        extends(old(k)@, final(k)@),
{
    proof {
        lemma_which(devices@, addr);
    }
    match get_containing_block(devices, addr) {
        Some(block) => {
            let slot = block.return_device_page(addr, page, k);
            free_cap_slot(slots, slot);
        },
        None => {
            vstd::pervasive::unreached()
        },
    }
}

/// What it takes to make and map the page of device memory that holds `addr`, if the
/// kernel agrees to every step: a device block holds the address, the page or the block
/// around it is free, a slot is free for the frame and two more for every split on the
/// way down to the page, and a page of address space is free.
pub open spec fn page_can_be_mapped(
    devices: Seq<DeviceBlockView>,
    slots: Seq<Span>,
    vspace: Seq<Span>,
    addr: usize,
) -> bool {
    let before = devices[which(devices, addr)];
    let steps = (before.leaf(addr).size_bits - kernel::PAGE_4K_BITS) as nat;
    &&& which(devices, addr) < devices.len()
    &&& slots.len() > 0
    &&& first_fit(vspace, 0x1000) < vspace.len()
    &&& before.leaf(addr).state is Available
    &&& slots_for_walk(crate::crust::freelist::take_one(slots), steps)
    &&& before.blocks.len() + 2 * steps <= usize::MAX
}

/// How many steps the record gains before the frame of the page that holds `addr` is
/// mapped: four for each split on the way down to the page, and four for the frame.
pub open spec fn steps_before_map(devices: Seq<DeviceBlockView>, addr: usize) -> int {
    4 * (devices[which(devices, addr)].leaf(addr).size_bits - kernel::PAGE_4K_BITS) + 4
}

/// The free slots after the frame of the page that holds `addr` was made: the slot of
/// the frame and two for each split are taken.
pub open spec fn slots_after_walk(
    devices: Seq<DeviceBlockView>,
    slots: Seq<Span>,
    addr: usize,
) -> Seq<Span> {
    let before = devices[which(devices, addr)];
    walked(
        before.blocks,
        take_one(slots),
        addr,
        (before.leaf(addr).size_bits - kernel::PAGE_4K_BITS) as nat,
    ).1
}

/// What it takes to make a page table once the frame is made: a slot that is still free,
/// and a 4K untyped in the small pool.
pub open spec fn table_can_be_made(
    devices: Seq<DeviceBlockView>,
    slots: Seq<Span>,
    pools: Pools,
    addr: usize,
) -> bool {
    slots_after_walk(devices, slots, addr).len() > 0 && pools.small.len() > 0
}

/// Makes the frame of the page of device memory that holds `addr` and maps it
/// writable at an address taken from `vspace`. If mapping fails, the frame goes back.
pub fn get_mapped_device_page<S: Syscalls>(
    devices: &mut Devices,
    slots: &mut SlotAllocator,
    vspace: &mut RegionAllocator,
    untyped: &mut UntypedAllocator,
    tables: &mut PageTables,
    addr: usize,
    k: &mut Machine<S>,
) -> (r: Result<MappedPage4K, KError>)
    requires
        old(devices).wf(),
        old(slots).wf(),
        old(vspace).wf(),
        old(untyped).wf(),
    ensures
        final(devices).wf(),
        final(slots).wf(),
        final(vspace).wf(),
        final(untyped).wf(),
        final(slots).free().subset_of(old(slots).free()),
        final(devices)@.len() == old(devices)@.len(),
        which(old(devices)@, addr) >= old(devices)@.len() ==> r == Err::<MappedPage4K, KError>(
            KError::FailedLookup,
        ) && final(devices)@ == old(devices)@ && final(slots)@ == old(slots)@ && final(vspace)@
            == old(vspace)@ && final(tables)@ == old(tables)@,
        r matches Err(err) ==> err != KError::NoError && final(vspace).free() == old(vspace).free(),
        r matches Ok(m) ==> m.wf() && which(old(devices)@, addr) < old(devices)@.len()
            && m@.page.slot == old(slots)@[0].start && m@.page.parent.size_bits
            == kernel::PAGE_4K_BITS && first_fit(old(vspace)@, 0x1000) < old(vspace)@.len()
            && m@.region == old(vspace)@[first_fit(old(vspace)@, 0x1000)].front(0x1000)
                && final(vspace)@ == take_n(old(vspace)@, 0x1000)
                && crate::crust::freelist::holds_none_of(
            final(vspace)@,
            m@.region,
        ) && !final(slots).free().contains(m@.page.slot as int) && final(devices)@[which(
            old(devices)@,
            addr,
        )].leaf(addr).state is Taken && final(devices)@[which(old(devices)@, addr)].leaf(
            addr,
        ).size_bits == kernel::PAGE_4K_BITS && lookup(
            final(devices)@[which(old(devices)@, addr)].blocks,
            addr,
        ) < final(devices)@[which(old(devices)@, addr)].blocks.len(),
        final(tables)@ == old(tables)@
            || (final(tables)@.len() == old(tables)@.len() + 1 && final(tables)@.skip(1)
                == old(tables)@),
        which(old(devices)@, addr) >= old(devices)@.len() ==> final(k)@ == old(k)@,
        extends(old(k)@, final(k)@),
        which(old(devices)@, addr) < old(devices)@.len() && old(slots)@.len() > 0 && first_fit(
            old(vspace)@,
            0x1000,
        ) < old(vspace)@.len() ==> {
            let before = old(devices)@[which(old(devices)@, addr)];
            let steps = (before.leaf(addr).size_bits - kernel::PAGE_4K_BITS) as nat;
            let rest = crate::crust::freelist::take_one(old(slots)@);
            before.leaf(addr).state is Available && slots_for_walk(rest, steps)
                && before.blocks.len()
                + 2 * steps <= usize::MAX && agreed(old(k)@, final(k)@) ==> r is Ok && (
                final(devices)@[which(old(devices)@, addr)].blocks,
                final(slots)@,
                r.unwrap()@.page.parent,
            ) == walked(before.blocks, rest, addr, steps) && final(untyped)@ == old(untyped)@
                && final(tables)@ == old(tables)@
        },
        page_can_be_mapped(old(devices)@, old(slots)@, old(vspace)@, addr) && agreed(
            old(k)@,
            final(k)@,
        ) ==> r is Ok,
        page_can_be_mapped(old(devices)@, old(slots)@, old(vspace)@, addr) && table_can_be_made(
            old(devices)@,
            old(slots)@,
            old(untyped)@,
            addr,
        ) && agreed_but_table(old(k)@, final(k)@, steps_before_map(old(devices)@, addr)) ==> r
            is Ok && final(tables)@.len() == old(tables)@.len() + 1 && final(tables)@.skip(1)
            == old(tables)@ && final(untyped)@ == (Pools {
            small: old(untyped)@.small.skip(1),
            ..old(untyped)@
        }) && final(slots)@ == take_one(slots_after_walk(old(devices)@, old(slots)@, addr)),
{
    let found = get_device_page(devices, slots, addr, k);
    let ghost k1 = k@;
    let page = match found {
        Ok(page) => page,
        Err(err) => {
            return Err(err);
        },
    };
    let ghost mid = devices@;
    let ghost at = which(old(devices)@, addr);
    proof {
        lemma_which(old(devices)@, addr);
        assert(mid[at].contains(addr));
        assert forall|j: int| 0 <= j < at implies !(#[trigger] mid[j]).contains(addr) by {
            assert(mid[j] == old(devices)@[j]);
        }
        lemma_which_is(mid, addr, at);
    }
    let ghost s1 = slots@;
    let mapped = page.map_into_vspace(true, vspace, slots, untyped, tables, k);
    let ghost k2 = k@;
    proof {
        lemma_agreed_parts(old(k)@, k1, k2);
        if first_fit(old(vspace)@, 0x1000) < old(vspace)@.len() && agreed(k1, k2) {
            let n = k1.len() as int;
            assert(crate::mantle::calls::no_refusal(k2[n + 1]));
            assert(k2.subrange(0, n + 2)[n + 1] == k2[n + 1]);
        }
    }
    match mapped {
        Ok(mapping) => {
            proof {
                let lead = steps_before_map(old(devices)@, addr);
                if page_can_be_mapped(old(devices)@, old(slots)@, old(vspace)@, addr)
                    && agreed_but_table(old(k)@, k2, lead) {
                    lemma_agreed_but_table(old(k)@, k1, k2, k2, lead);
                }
            }
            Ok(mapping)
        },
        Err((page, err)) => {
            return_device_page(devices, slots, addr, page, k);
            proof {
                lemma_agreed_parts(old(k)@, k2, k@);
                let lead = steps_before_map(old(devices)@, addr);
                if page_can_be_mapped(old(devices)@, old(slots)@, old(vspace)@, addr)
                    && agreed_but_table(old(k)@, k@, lead) {
                    lemma_agreed_but_table(old(k)@, k1, k2, k@, lead);
                }
            }
            Err(err)
        },
    }
}

/// Unmaps a mapped frame of device memory and gives it back.
pub fn return_mapped_device_page<S: Syscalls>(
    devices: &mut Devices,
    slots: &mut SlotAllocator,
    vspace: &mut RegionAllocator,
    addr: usize,
    page: MappedPage4K,
    k: &mut Machine<S>,
)
    requires
        old(devices).wf(),
        old(slots).wf(),
        old(vspace).wf(),
        page.wf(),
        crate::crust::freelist::holds_none_of(old(vspace)@, page@.region),
        which(old(devices)@, addr) < old(devices)@.len(),
        old(devices)@[which(old(devices)@, addr)].leaf(addr).state is Taken,
        old(devices)@[which(old(devices)@, addr)].leaf(addr).size_bits == kernel::PAGE_4K_BITS,
        page@.page.parent.size_bits == kernel::PAGE_4K_BITS,
        page@.page.slot < usize::MAX,
        !old(slots).free().contains(page@.page.slot as int),
    ensures
        final(devices).wf(),
        final(slots).wf(),
        final(vspace).wf(),
        final(devices)@ == old(devices)@.update(
            which(old(devices)@, addr),
            old(devices)@[which(old(devices)@, addr)].with_leaf(
                addr,
                BlockState::Available(page@.page.parent),
            ),
        ),
        final(slots).free() == old(slots).free().insert(page@.page.slot as int),
        final(vspace).free() == old(vspace).free().union(page@.region.points()),
        extends(old(k)@, final(k)@),
{
    let unmapped = page.unmap(vspace, k);
    return_device_page(devices, slots, addr, unmapped, k);
}

/// The device blocks of the device untypeds among the entries from `from` up to
/// `count`, lowest entry first; entry `i` lies in slot `start + i`.
pub open spec fn picked_devices(list: Seq<UntypedDesc>, start: int, from: int, count: int) -> Seq<
    DeviceBlockView,
>
    decreases count - from,
{
    if from >= count {
        Seq::empty()
    } else if list[from].is_device != 0 {
        seq![
            DeviceBlockView {
                paddr: list[from].paddr,
                size_bits: list[from].size_bits,
                blocks: seq![
                    SubblockView {
                        paddr: list[from].paddr,
                        size_bits: list[from].size_bits,
                        state: BlockState::Available(
                            UntypedView {
                                slot: (start + from) as usize,
                                size_bits: list[from].size_bits,
                            },
                        ),
                    },
                ],
            },
        ] + picked_devices(list, start, from + 1, count)
    } else {
        picked_devices(list, start, from + 1, count)
    }
}

/// The device untypeds among the first `count` entries are at least a page each, fit the
/// machine word, and lie in the order of their addresses without overlap.
pub open spec fn devices_in_order(list: Seq<UntypedDesc>, count: int) -> bool {
    &&& forall|i: int|
        0 <= i < count && (#[trigger] list[i]).is_device != 0 ==> kernel::PAGE_4K_BITS
            <= list[i].size_bits < usize::BITS && list[i].paddr + pow2(list[i].size_bits as nat)
            <= usize::MAX
    &&& forall|i: int, j: int|
        0 <= i < j < count && (#[trigger] list[i]).is_device != 0 && (#[trigger] list[j]).is_device
            != 0 ==> list[i].paddr + pow2(list[i].size_bits as nat) <= list[j].paddr
}

/// Every device block picked from entry `from` on lies at or above `floor` if every device
/// untyped from there on does.
pub proof fn lemma_picked_above(list: Seq<UntypedDesc>, start: int, from: int, count: int, floor: int)
    requires
        0 <= from,
        forall|i: int| from <= i < count && (#[trigger] list[i]).is_device != 0
            ==> floor <= list[i].paddr,
    ensures
        forall|a: int|
            0 <= a < picked_devices(list, start, from, count).len() ==> floor <= (
            #[trigger] picked_devices(list, start, from, count)[a]).span().start,
    decreases count - from,
{
    if from < count {
        lemma_picked_above(list, start, from + 1, count, floor);
        let rest = picked_devices(list, start, from + 1, count);
        let all = picked_devices(list, start, from, count);
        assert forall|a: int| 0 <= a < all.len() implies floor <= (#[trigger] all[a]).span().start by {
            if list[from].is_device != 0 {
                if a > 0 {
                    assert(all[a] == rest[a - 1]);
                }
            }
        }
    }
}

/// Makes the device blocks of the boot information's device untypeds.
pub fn init_untyped(untyped: CapRange, untyped_list: &[UntypedDesc; 230]) -> (r: Devices)
    requires
        untyped.wf(),
        untyped@.len() <= 230,
        devices_in_order(untyped_list@, untyped@.len()),
    ensures
        r.wf(),
        r@ == picked_devices(untyped_list@, untyped@.start, 0, untyped@.len()),
{
    let count = untyped.len();
    let ghost list = untyped_list@;
    let ghost start = untyped@.start;
    let mut devices: LinkedList<DeviceBlock> = LinkedList::empty();
    let mut last_addr: usize = usize::MAX;
    let mut ir: usize = 0;
    assert(device_views(devices@) =~= picked_devices(list, start, count as int, count as int));
    while ir < count
        invariant
            untyped.wf(),
            count == untyped@.len(),
            count <= 230,
            ir <= count,
            list == untyped_list@,
            start == untyped@.start,
            devices_in_order(list, count as int),
            device_views(devices@) == picked_devices(list, start, count - ir, count as int),
            forall|i: int| 0 <= i < devices@.len() ==> (#[trigger] devices@[i]).wf(),
            ascending(device_views(devices@)),
            forall|i: int|
                count - ir <= i < count && (#[trigger] list[i]).is_device != 0 ==> last_addr
                    <= list[i].paddr,
            forall|i: int|
                0 <= i < count - ir && (#[trigger] list[i]).is_device != 0 ==> list[i].paddr + pow2(
                    list[i].size_bits as nat,
                ) <= last_addr,
        decreases count - ir,
    {
        let i = count - 1 - ir;
        let ent = untyped_list[i];
        let ghost rest = picked_devices(list, start, i + 1, count as int);
        assert(ent == list[i as int]);
        if ent.is_device != 0 {
            let newblock = DeviceBlock::new(
                Untyped::from_cap(untyped.nth(i).assert_populated(), ent.size_bits),
                ent.paddr,
            );
            proof {
                newblock.lemma_wf();
                lemma_picked_above(list, start, i + 1, count as int, last_addr as int);
            }
            let ghost old_last = last_addr;
            last_addr = newblock.start();
            let ghost before = devices@;
            let _ = devices.pushmut(newblock);
            proof {
                let views = device_views(devices@);
                assert(views =~= seq![newblock@] + rest);
                assert forall|a: int, b: int| 0 <= a < b < views.len() implies (
                #[trigger] views[a]).span().end <= (#[trigger] views[b]).span().start by {
                    assert(views[b] == rest[b - 1]);
                    if a > 0 {
                        assert(views[a] == rest[a - 1]);
                    }
                }
                assert forall|a: int| 0 <= a < devices@.len() implies (#[trigger] devices@[a]).wf() by {
                    if a > 0 {
                        assert(devices@[a] == before[a - 1]);
                    }
                }
            }
        }
        ir = ir + 1;
    }
    Devices { list: devices }
}

} // verus!
