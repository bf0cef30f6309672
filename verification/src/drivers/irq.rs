//! The interrupt manager: one notification, on which the kernel signals up to 32
//! interrupt lines as bits of a word, and for each line whether a callback is set. The
//! callbacks themselves are kept by whoever runs the main loop: the manager says which
//! lines to call, and in what order.
use vstd::prelude::*;
use crate::mantle::kio::extends;
use crate::kobject::steps::group_record;
use vstd::std_specs::bits::axiom_u64_trailing_zeros;
use crate::crust::capalloc::{allocate_cap_slot, free_cap_slot, SlotAllocator};
use crate::kobject::{CapSlot, IRQControl, IRQHandler, Notification, ObjectView};
use crate::mantle::kernel;
use crate::mantle::kernel::KError;
use crate::crust;
use crate::drivers::ioport::stepped;
use crate::kobject::cap::deleted;
use crate::kobject::capset::between;
use crate::crust::freelist::{first_fit, merge, points, take_n, take_one, unit};
use crate::intervals::Span;
use crate::kobject::steps::retyped;
use crate::mantle::calls::{agreed, invocation, verdict};
use crate::mantle::kernel::ObjectType;
use crate::mantle::kio::{answer_of, last_answer, put_mrs, Answer, Event, Machine, Syscalls};
use crate::memory::smalluntyped::{
    allocate_notification,
    can_restock,
    can_restock_from_large,
    restocked,
    FragmentAllocator,
    Fragments,
};
use crate::memory::untyped::{refilled, Pools, UntypedAllocator};

verus! {

broadcast use group_record;

/// The number of interrupt lines: as many as fit the manager's table.
pub const IRQ_MAX: u32 = 32;

/// Whether bit `i` of `word` is set.
pub open spec fn bit_set(word: u64, i: int) -> bool {
    0 <= i < 64 && (word >> (i as u64)) & 1 == 1
}

/// The lines below `upto` that are signalled in `word` and have a callback, lowest line
/// first.
pub open spec fn lines_to_call(word: u64, active: Seq<bool>, upto: int) -> Seq<u32>
    decreases upto,
{
    if upto <= 0 {
        Seq::empty()
    } else if bit_set(word, upto - 1) && upto - 1 < active.len() && active[upto - 1] {
        lines_to_call(word, active, upto - 1).push((upto - 1) as u32)
    } else {
        lines_to_call(word, active, upto - 1)
    }
}

/// Where no line from `from` up to `upto` is signalled, nothing is added to the lines to
/// call.
pub proof fn lemma_no_lines_between(word: u64, active: Seq<bool>, from: int, upto: int)
    requires
        0 <= from <= upto,
        forall|j: int| from <= j < upto ==> !bit_set(word, j),
    ensures
        lines_to_call(word, active, upto) == lines_to_call(word, active, from),
    decreases upto - from,
{
    if from < upto {
        lemma_no_lines_between(word, active, from, upto - 1);
    }
}

/// The lines to call come in ascending order, each signalled and with a callback.
pub proof fn lemma_lines_ascending(word: u64, active: Seq<bool>, upto: int)
    requires
        0 <= upto,
    ensures
        forall|i: int|
            0 <= i < lines_to_call(word, active, upto).len() ==> (#[trigger] lines_to_call(
                word,
                active,
                upto,
            )[i]) < upto && bit_set(word, lines_to_call(word, active, upto)[i] as int)
                && active[lines_to_call(word, active, upto)[i] as int],
        forall|i: int, j: int|
            0 <= i < j < lines_to_call(word, active, upto).len() ==> (#[trigger] lines_to_call(
                word,
                active,
                upto,
            )[i]) < (#[trigger] lines_to_call(word, active, upto)[j]),
    decreases upto,
{
    if upto > 0 {
        lemma_lines_ascending(word, active, upto - 1);
        let all = lines_to_call(word, active, upto);
        let before = lines_to_call(word, active, upto - 1);
        assert forall|i: int| 0 <= i < all.len() implies (#[trigger] all[i]) < upto && bit_set(
            word,
            all[i] as int,
        ) && active[all[i] as int] by {
            if i < before.len() {
                assert(all[i] == before[i]);
            }
        }
        assert forall|i: int, j: int| 0 <= i < j < all.len() implies (#[trigger] all[i]) < (
        #[trigger] all[j]) by {
            assert(all[i] == before[i]);
            if j < before.len() {
                assert(all[j] == before[j]);
            }
        }
    }
}

/// The steps of asking for the handler of line `irq` into slot `slot`.
pub open spec fn handler_steps(control: usize, irq: u32, slot: usize, answer: Answer) -> Seq<
    Event,
> {
    seq![
        Event::SetCap { index: 0, cptr: crust::ROOT_SLOT },
        invocation(
            control,
            kernel::TAG_IRQ_ISSUE_IRQ_HANDLER,
            1,
            3,
            irq as usize,
            slot,
            crust::ROOT_BITS,
            0,
            answer,
        ),
    ]
}

/// The steps of binding the handler in slot `handler` to the notification in slot
/// `notification`.
pub open spec fn bind_steps(handler: usize, notification: usize, answer: Answer) -> Seq<Event> {
    seq![
        Event::SetCap { index: 0, cptr: notification },
        invocation(handler, kernel::TAG_IRQ_SET_IRQ_HANDLER, 1, 0, 0, 0, 0, 0, answer),
    ]
}

/// What the manager is: the slot of the interrupt control capability, its notification,
/// and for each line whether a callback is set.
pub struct IRQManagerView {
    pub control: usize,
    pub notification: ObjectView,
    pub active: Seq<bool>,
}

/// What the making of the manager comes to, from the fragments, the pools, the free slots
/// and the record as they were to those as they are, with `r` the new manager or the
/// error. With a fragment at hand the outcome is the kernel's verdict on the one retype;
/// without one, the fragments are first filled, and success is owed where the kernel
/// agrees to every step.
pub open spec fn manager_made(
    fragments: Fragments,
    pools: Pools,
    slots: Seq<Span>,
    before: Seq<Event>,
    r: Result<IRQManagerView, KError>,
    fragments_after: Fragments,
    pools_after: Pools,
    slots_after: Seq<Span>,
    after: Seq<Event>,
) -> bool {
    &&& extends(before, after)
    &&& points(slots_after).subset_of(points(slots))
    &&& r matches Ok(m) ==> m.control == kernel::CAP_INIT_IRQCONTROL
        && m.notification.parent.size_bits
        == 4 && !points(slots_after).contains(m.notification.slot as int) && m.active.len()
        == IRQ_MAX && forall|i: int| 0 <= i < IRQ_MAX ==> !(#[trigger] m.active[i])
    &&& r matches Err(err) ==> err != KError::NoError
    &&& fragments.available.len() > 0 && slots.len() == 0 ==> r == Err::<IRQManagerView, KError>(
        KError::NotEnoughMemory,
    ) && after == before
    &&& fragments.available.len() > 0 && slots.len() > 0 ==> (r is Ok <==> verdict(
        last_answer(after),
    ) == KError::NoError) && (r matches Err(err) ==> err == verdict(last_answer(after)))
        && retyped(
        before,
        fragments.available[0].slot,
        ObjectType::NotificationObject,
        0,
        slots[0].start,
        1,
        after,
    )
    &&& r is Ok && fragments.available.len() > 0 ==> r.unwrap().notification == (ObjectView {
        slot: slots[0].start as usize,
        parent: fragments.available[0],
    }) && fragments_after == (Fragments { available: fragments.available.skip(1), ..fragments })
        && slots_after == take_one(slots) && pools_after == pools
    &&& r is Err && fragments.available.len() > 0 ==> fragments_after == fragments && points(
        slots_after,
    ) == points(slots) && pools_after == pools
    &&& fragments.available.len() == 0 && can_restock(pools, slots) && take_n(slots, 256).len() > 0
        && agreed(before, after) ==> r is Ok && r.unwrap().notification == (ObjectView {
        slot: take_n(slots, 256)[0].start as usize,
        parent: restocked(fragments, pools, slots).3,
    }) && (fragments_after, pools_after, slots_after) == (
        restocked(fragments, pools, slots).0,
        restocked(fragments, pools, slots).1,
        take_one(take_n(slots, 256)),
    )
    &&& fragments.available.len() == 0 && can_restock_from_large(pools, slots) && take_n(
        refilled(pools, slots).1,
        256,
    ).len() > 0 && agreed(before, after) ==> r is Ok && r.unwrap().notification.slot == take_n(
        refilled(pools, slots).1,
        256,
    )[0].start
    &&& fragments.available.len() == 0 && pools.small.len() == 0 && (pools.large.len() == 0
        || first_fit(slots, 2) >= slots.len()) ==> r == Err::<IRQManagerView, KError>(
        KError::NotEnoughMemory,
    ) && after == before && fragments_after == fragments && pools_after == pools
}

/// What the request of the line `irq` from the manager `m` comes to: without a free slot
/// "not enough memory" and nothing done; else the handler is asked for into the first
/// free slot, and the line is granted exactly if the kernel grants the handler, which
/// is then bound to the manager's notification; if the kernel refuses, the slot is free
/// again.
pub open spec fn line_requested(
    m: IRQManagerView,
    irq: u32,
    slots: Seq<Span>,
    before: Seq<Event>,
    r: Result<(u32, usize), KError>,
    slots_after: Seq<Span>,
    after: Seq<Event>,
) -> bool {
    if slots.len() == 0 {
        r == Err::<(u32, usize), KError>(KError::NotEnoughMemory) && slots_after == slots && after
            == before
    } else {
        let slot = slots[0].start as usize;
        let asked = answer_of(after[before.len() as int + 1]);
        &&& r is Ok <==> verdict(asked) == KError::NoError
        &&& r matches Err(err) ==> err == verdict(asked) && after == before + handler_steps(
            m.control,
            irq,
            slot,
            asked,
        ) && points(slots_after) == points(slots) && slots_after == merge(
            take_one(slots),
            unit(slots[0].start),
        )
        &&& r matches Ok(line) ==> line == (irq, slot) && slot < usize::MAX && slots_after
            == take_one(slots) && points(slots_after) == points(slots).remove(slot as int) && after
            == before + handler_steps(m.control, irq, slot, asked) + bind_steps(
            slot,
            m.notification.slot,
            last_answer(after),
        )
    }
}

/// The view of a manager that was made, or the error.
pub open spec fn made_view(r: Result<IRQManager, KError>) -> Result<IRQManagerView, KError> {
    match r {
        Ok(m) => Ok(m@),
        Err(err) => Err(err),
    }
}

/// The view of a line that was granted, or the error.
pub open spec fn line_view(r: Result<IRQ, KError>) -> Result<(u32, usize), KError> {
    match r {
        Ok(line) => Ok(line@),
        Err(err) => Err(err),
    }
}

pub struct IRQManager {
    irqcontrol: IRQControl,
    notification: Notification,
    callbacks: Vec<bool>,
}

/// One requested interrupt line.
pub struct IRQ {
    irqhandler: IRQHandler,
    irq: u32,
}

impl IRQManager {
    pub closed spec fn view(&self) -> IRQManagerView {
        IRQManagerView {
            control: self.irqcontrol@,
            notification: self.notification@,
            active: self.callbacks@,
        }
    }

    /// The table has an entry for each line.
    pub open spec fn wf(&self) -> bool {
        self@.active.len() == IRQ_MAX
    }

    /// Makes the manager: a notification from a 16-byte untyped, and the root task's
    /// interrupt control capability. No line has a callback.
    pub fn new<S: Syscalls>(
        fragments: &mut FragmentAllocator,
        untyped: &mut UntypedAllocator,
        slots: &mut SlotAllocator,
        k: &mut Machine<S>,
    ) -> (r: Result<IRQManager, KError>)
        requires
            old(fragments).wf(),
            old(untyped).wf(),
            old(slots).wf(),
        ensures
            final(fragments).wf(),
            final(untyped).wf(),
            final(slots).wf(),
            final(slots).free().subset_of(old(slots).free()),
            r matches Ok(m) ==> m.wf() && m@.control == kernel::CAP_INIT_IRQCONTROL
                && m@.notification.parent.size_bits == 4 && !final(slots).free().contains(
                m@.notification.slot as int,
            ) && forall|i: int| 0 <= i < IRQ_MAX ==> !(#[trigger] m@.active[i]),
            r matches Err(err) ==> err != KError::NoError,
            extends(old(k)@, final(k)@),
            old(fragments)@.available.len() > 0 && old(slots)@.len() == 0 ==> (r matches Err(
                KError::NotEnoughMemory,
            )) && final(k)@ == old(k)@,
            old(fragments)@.available.len() > 0 && old(slots)@.len() > 0 ==> (r is Ok <==> verdict(
                last_answer(final(k)@),
            ) == KError::NoError) && (r matches Err(err) ==> err == verdict(
                last_answer(final(k)@),
            )) && retyped(
                old(k)@,
                old(fragments)@.available[0].slot,
                ObjectType::NotificationObject,
                0,
                old(slots)@[0].start,
                1,
                final(k)@,
            ),
            r is Ok && old(fragments)@.available.len() > 0 ==> r.unwrap()@.notification == (
                ObjectView { slot: old(slots)@[0].start as usize, parent: old(fragments)@.available[0] }
            ) && final(fragments)@ == (Fragments {
                available: old(fragments)@.available.skip(1),
                ..old(fragments)@
            }) && final(slots)@ == take_one(old(slots)@) && final(untyped)@ == old(untyped)@,
            r is Err && old(fragments)@.available.len() > 0 ==> final(fragments)@
                == old(fragments)@ && final(slots).free() == old(slots).free()
                && final(untyped)@ == old(untyped)@,
            old(fragments)@.available.len() == 0 && can_restock(old(untyped)@, old(slots)@)
                && take_n(old(slots)@, 256).len() > 0 && agreed(old(k)@, final(k)@) ==> r is Ok
                && r.unwrap()@.notification == (ObjectView {
                slot: take_n(old(slots)@, 256)[0].start as usize,
                parent: restocked(old(fragments)@, old(untyped)@, old(slots)@).3,
            }) && (final(fragments)@, final(untyped)@, final(slots)@) == (
                restocked(old(fragments)@, old(untyped)@, old(slots)@).0,
                restocked(old(fragments)@, old(untyped)@, old(slots)@).1,
                take_one(take_n(old(slots)@, 256)),
            ),
            old(fragments)@.available.len() == 0 && can_restock_from_large(
                old(untyped)@,
                old(slots)@,
            ) && take_n(refilled(old(untyped)@, old(slots)@).1, 256).len() > 0 && agreed(
                old(k)@,
                final(k)@,
            ) ==> r is Ok && r.unwrap()@.notification.slot == take_n(
                refilled(old(untyped)@, old(slots)@).1,
                256,
            )[0].start,
            manager_made(
                old(fragments)@,
                old(untyped)@,
                old(slots)@,
                old(k)@,
                made_view(r),
                final(fragments)@,
                final(untyped)@,
                final(slots)@,
                final(k)@,
            ),
    {
        let notify = allocate_notification(fragments, untyped, slots, k)?;
        let irqc = IRQControl::from_cap(
            CapSlot::from_index(kernel::CAP_INIT_IRQCONTROL as usize).assert_populated(),
        );
        let mut callbacks: Vec<bool> = Vec::new();
        let mut i: u32 = 0;
        while i < IRQ_MAX
            invariant
                extends(old(k)@, k@),
                i <= IRQ_MAX,
                callbacks@.len() == i,
                forall|j: int| 0 <= j < i ==> !(#[trigger] callbacks@[j]),
            decreases IRQ_MAX - i,
        {
            callbacks.push(false);
            i = i + 1;
        }
        Ok(IRQManager { irqcontrol: irqc, notification: notify, callbacks })
    }

    /// Whether the line `irq` has a callback.
    pub fn is_active(&self, irq: u32) -> (r: bool)
        requires
            self.wf(),
            irq < IRQ_MAX,
        ensures
            r == self@.active[irq as int],
    {
        self.callbacks[irq as usize]
    }

    /// Requests the interrupt line `irq`: its handler is made in a fresh slot and bound to
    /// the manager's notification. If the kernel refuses the handler, the slot goes back.
    pub fn request<S: Syscalls>(&self, irq: u32, slots: &mut SlotAllocator, k: &mut Machine<S>) -> (r: Result<
        IRQ,
        KError,
    >)
        requires
            irq < IRQ_MAX,
            old(slots).wf(),
        ensures
            final(slots).wf(),
            old(slots)@.len() == 0 ==> r is Err && r->Err_0 == KError::NotEnoughMemory
                && final(slots)@ == old(slots)@,
            r matches Ok(line) ==> line@.0 == irq && line@.1 == old(slots)@[0].start && line@.1
                < usize::MAX && final(slots)@
                == crate::crust::freelist::take_one(old(slots)@) && final(slots).free()
                    == old(slots).free().remove(line@.1 as int),
            r matches Err(err) ==> err != KError::NoError && final(slots).free()
                == old(slots).free(),
            old(slots)@.len() == 0 ==> final(k)@ == old(k)@,
            old(slots)@.len() > 0 ==> {
                let n = old(k)@.len() as int;
                let slot = old(slots)@[0].start as usize;
                let asked = answer_of(final(k)@[n + 1]);
                &&& r is Ok <==> verdict(asked) == KError::NoError
                &&& r matches Err(err) ==> err == verdict(asked) && final(k)@ == old(k)@
                    + handler_steps(
                    self@.control,
                    irq,
                    slot,
                    asked,
                )
                &&& r is Ok ==> final(k)@
                    == old(k)@ + handler_steps(self@.control, irq, slot, asked)
                    + bind_steps(slot, self@.notification.slot, last_answer(final(k)@))
            },
            extends(old(k)@, final(k)@),
            line_requested(
                self@,
                irq,
                old(slots)@,
                old(k)@,
                line_view(r),
                final(slots)@,
                final(k)@,
            ),
    {
        let cslot = allocate_cap_slot(slots)?;
        match self.irqcontrol.get(irq, cslot, k) {
            Ok(irqhandler) => {
                let _ = irqhandler.set_notification(&self.notification, k);
                Ok(IRQ { irqhandler, irq })
            },
            Err((err, cslot)) => {
                free_cap_slot(slots, cslot);
                assert(slots.free() =~= old(slots).free());
                Err(err)
            },
        }
    }

    /// Whether the line `bit`, which was signalled, has a callback to call.
    pub fn on_bit(&mut self, bit: u32) -> (r: bool)
        requires
            old(self).wf(),
            bit < IRQ_MAX,
        ensures
            *final(self) == *old(self),
            r == old(self)@.active[bit as int],
    {
        self.callbacks[bit as usize]
    }

    /// The lines to call for the word of bits `sender` that the notification delivered:
    /// those that are signalled and have a callback, lowest line first.
    pub fn on_word(&mut self, sender: usize) -> (r: Vec<u32>)
        requires
            old(self).wf(),
            sender < 0x1_0000_0000,
        ensures
            *final(self) == *old(self),
            r@ == lines_to_call(sender as u64, old(self)@.active, IRQ_MAX as int),
    {
        let word: u64 = sender as u64;
        let mut sender: u64 = word;
        let mut out: Vec<u32> = Vec::new();
        let ghost mut done: int = 0;
        let ghost active = self@.active;
        while sender != 0
            invariant
                self.wf(),
                *self == *old(self),
                active == self@.active,
                word < 0x1_0000_0000,
                0 <= done <= 32,
                sender <= word,
                forall|j: int| 0 <= j < done ==> !bit_set(sender, j),
                forall|j: int| done <= j < 64 ==> bit_set(sender, j) == bit_set(word, j),
                out@ == lines_to_call(word, active, done),
            decreases sender,
        {
            let active_bit = sender.trailing_zeros();
            proof {
                axiom_u64_trailing_zeros(sender);
                assert(active_bit < 64);
                assert(bit_set(sender, active_bit as int));
                assert(active_bit >= done);
                assert(active_bit < 32) by {
                    let b = active_bit as u64;
                    assert((word >> b) & 1 == 1 && word < 0x1_0000_0000u64 && b < 64 ==> b < 32)
                        by (bit_vector);
                }
                assert forall|j: int| done <= j < active_bit implies !bit_set(word, j) by {
                    assert((sender >> (j as u64)) & 1u64 == 0u64);
                }
                lemma_no_lines_between(word, active, done, active_bit as int);
            }
            if self.on_bit(active_bit) {
                out.push(active_bit);
            }
            let ghost before = sender;
            sender = sender & !(1u64 << active_bit);
            proof {
                let b = active_bit as u64;
                assert(sender < before) by {
                    assert((before >> b) & 1 == 1 && b < 64 ==> (before & !(1u64 << b)) < before)
                        by (bit_vector);
                }
                assert forall|j: int| 0 <= j < 64 implies bit_set(sender, j) == (j != active_bit
                    && bit_set(before, j)) by {
                    let ju = j as u64;
                    assert(b < 64 && ju < 64 ==> (((before & !(1u64 << b)) >> ju) & 1 == 1) == (ju
                        != b && (before >> ju) & 1 == 1)) by (bit_vector);
                }
                done = active_bit + 1;
            }
        }
        proof {
            assert forall|j: int| done <= j < 32 implies !bit_set(word, j) by {
                assert(bit_set(sender, j) == bit_set(word, j));
                let ju = j as u64;
                assert(ju < 64 ==> (0u64 >> ju) & 1 == 0) by (bit_vector);
            }
            lemma_no_lines_between(word, active, done, 32);
        }
        out
    }

    /// One round of the main loop: waits for the notification and returns the lines to
    /// call, lowest line first. Bits above the table are not lines and are left out.
    pub fn wait_for_lines<S: Syscalls>(&mut self, k: &mut Machine<S>) -> (r: Vec<u32>)
        requires
            old(self).wf(),
        ensures
            *final(self) == *old(self),
            forall|i: int|
                0 <= i < r@.len() ==> (#[trigger] r@[i]) < IRQ_MAX
                    && old(self)@.active[r@[i] as int],
            forall|i: int, j: int| 0 <= i < j < r@.len()
                ==> (#[trigger] r@[i]) < (#[trigger] r@[j]),
            final(k)@ == old(k)@.push(
                Event::Recv {
                    syscall: kernel::SYS_RECV,
                    src: old(self)@.notification.slot,
                    answer: answer_of(final(k)@[old(k)@.len() as int]),
                },
            ) + put_mrs(answer_of(final(k)@[old(k)@.len() as int])),
            r@ == lines_to_call(
                (answer_of(final(k)@[old(k)@.len() as int]).badge as u64) & 0xffff_ffffu64,
                old(self)@.active,
                IRQ_MAX as int,
            ),
            extends(old(k)@, final(k)@),
    {
        let sender = self.notification.wait(k);
        let lines = ((sender as u64) & 0xffff_ffffu64) as usize;
        assert(((sender as u64) & 0xffff_ffffu64) < 0x1_0000_0000u64) by (bit_vector);
        proof {
            lemma_lines_ascending(lines as u64, self@.active, IRQ_MAX as int);
        }
        self.on_word(lines)
    }

    /// Notes that the line `irq` has a callback, which it must not have had.
    pub fn set_callback(&mut self, irq: u32)
        requires
            old(self).wf(),
            irq < IRQ_MAX,
            !old(self)@.active[irq as int],
        ensures
            final(self).wf(),
            final(self)@ == (IRQManagerView {
                active: old(self)@.active.update(irq as int, true),
                ..old(self)@
            }),
    {
        self.callbacks[irq as usize] = true;
    }

    /// Notes that the line `irq` has no callback any more; it must have had one.
    pub fn clear_callback(&mut self, irq: u32)
        requires
            old(self).wf(),
            irq < IRQ_MAX,
            old(self)@.active[irq as int],
        ensures
            final(self).wf(),
            final(self)@ == (IRQManagerView {
                active: old(self)@.active.update(irq as int, false),
                ..old(self)@
            }),
    {
        self.callbacks[irq as usize] = false;
    }
}

impl IRQ {
    /// The line's number and the slot of its handler.
    pub closed spec fn view(&self) -> (u32, usize) {
        (self.irq, self.irqhandler@)
    }

    pub fn line(&self) -> (r: u32)
        ensures
            r == self@.0,
    {
        self.irq
    }

    /// The slot of the line's handler.
    pub fn slot(&self) -> (r: usize)
        ensures
            r == self@.1,
    {
        self.irqhandler.peek_index()
    }

    /// Gives the line up: its callback, which must be set, is cleared, the kernel clears
    /// and deletes the handler, and the handler's slot goes back to `slots`. The kernel
    /// must not refuse to clear; if it does, the machine's `fault` is told.
    pub fn free<S: Syscalls>(self, manager: &mut IRQManager, slots: &mut SlotAllocator, k: &mut Machine<S>)
        requires
            old(manager).wf(),
            old(slots).wf(),
            self@.0 < IRQ_MAX,
            old(manager)@.active[self@.0 as int],
            self@.1 < usize::MAX,
            !old(slots).free().contains(self@.1 as int),
        ensures
            final(manager).wf(),
            final(slots).wf(),
            final(manager)@ == (IRQManagerView {
                active: old(manager)@.active.update(self@.0 as int, false),
                ..old(manager)@
            }),
            final(slots).free() == old(slots).free().insert(self@.1 as int),
            exists|mid: Seq<Event>|
                #[trigger] between(mid) && stepped(
                    old(k)@,
                    mid,
                    |answer: Answer|
                        invocation(self@.1, kernel::TAG_IRQ_CLEAR_IRQ_HANDLER, 0, 0, 0, 0, 0, 0, answer),
                ) && deleted(mid, self@.1, final(k)@),
            extends(old(k)@, final(k)@),
    {
        self.clear_cb(manager);
        if let Err(err) = self.irqhandler.clear(k) {
            k.fault(err);
        }
        let ghost mid = k@;
        proof {
            assert(between(mid));
            assert(stepped(
                old(k)@,
                mid,
                |answer: Answer|
                    invocation(self@.1, kernel::TAG_IRQ_CLEAR_IRQ_HANDLER, 0, 0, 0, 0, 0, 0, answer),
            ));
        }
        free_cap_slot(slots, self.irqhandler.free(k))
    }

    /// Tells the kernel that the interrupt was handled; until then the line stays masked.
    pub fn ack<S: Syscalls>(&self, k: &mut Machine<S>) -> (r: Result<(), KError>)
        ensures
            r matches Err(err) ==> err != KError::NoError,
            r matches Err(err) ==> err == verdict(last_answer(final(k)@)),
            r is Ok <==> verdict(last_answer(final(k)@)) == KError::NoError,
            final(k)@ == old(k)@.push(
                invocation(self@.1, kernel::TAG_IRQ_ACK_IRQ, 0, 0, 0, 0, 0, 0, last_answer(final(k)@)),
            ),
            extends(old(k)@, final(k)@),
    {
        self.irqhandler.ack(k)
    }

    /// Notes in `manager` that the line has a callback.
    pub fn set_cb(&self, manager: &mut IRQManager)
        requires
            old(manager).wf(),
            self@.0 < IRQ_MAX,
            !old(manager)@.active[self@.0 as int],
        ensures
            final(manager).wf(),
            final(manager)@ == (IRQManagerView {
                active: old(manager)@.active.update(self@.0 as int, true),
                ..old(manager)@
            }),
    {
        manager.set_callback(self.irq)
    }

    /// Notes in `manager` that the line has no callback any more.
    pub fn clear_cb(&self, manager: &mut IRQManager)
        requires
            old(manager).wf(),
            self@.0 < IRQ_MAX,
            old(manager)@.active[self@.0 as int],
        ensures
            final(manager).wf(),
            final(manager)@ == (IRQManagerView {
                active: old(manager)@.active.update(self@.0 as int, false),
                ..old(manager)@
            }),
    {
        manager.clear_callback(self.irq);
    }
}

/// Makes the manager on first use: where there is one, nothing is done; else it is made
/// as `manager_made` says and kept.
pub fn get_manager<S: Syscalls>(
    manager: &mut Option<IRQManager>,
    fragments: &mut FragmentAllocator,
    untyped: &mut UntypedAllocator,
    slots: &mut SlotAllocator,
    k: &mut Machine<S>,
) -> (r: Result<(), KError>)
    requires
        (*old(manager) matches Some(m) ==> m.wf()),
        old(fragments).wf(),
        old(untyped).wf(),
        old(slots).wf(),
    ensures
        final(fragments).wf(),
        final(untyped).wf(),
        final(slots).wf(),
        final(slots).free().subset_of(old(slots).free()),
        (*old(manager)) is Some ==> r is Ok && *final(manager) == *old(manager) && final(slots)@
            == old(slots)@ && final(fragments)@ == old(fragments)@ && final(untyped)@
                == old(untyped)@ && final(k)@ == old(k)@,
        r is Ok <==> (*final(manager)) is Some,
        (*final(manager)) matches Some(m) ==> m.wf(),
        r matches Err(err) ==> err != KError::NoError,
        (*old(manager)) is None ==> manager_made(
            old(fragments)@,
            old(untyped)@,
            old(slots)@,
            old(k)@,
            match r {
                Ok(_) => Ok(final(manager).unwrap()@),
                Err(err) => Err(err),
            },
            final(fragments)@,
            final(untyped)@,
            final(slots)@,
            final(k)@,
        ),
        extends(old(k)@, final(k)@),
{
    if manager.is_none() {
        let m = IRQManager::new(fragments, untyped, slots, k)?;
        *manager = Some(m);
    }
    Ok(())
}

/// Requests the interrupt line `irq` from the manager, which is made on first use. Where
/// the manager cannot be made, its error is returned; else the line is requested from
/// it as `line_requested` says, with the slots and the record as the making left them.
pub fn request<S: Syscalls>(
    manager: &mut Option<IRQManager>,
    irq: u32,
    fragments: &mut FragmentAllocator,
    untyped: &mut UntypedAllocator,
    slots: &mut SlotAllocator,
    k: &mut Machine<S>,
) -> (r: Result<IRQ, KError>)
    requires
        (*old(manager) matches Some(m) ==> m.wf()),
        old(fragments).wf(),
        old(untyped).wf(),
        old(slots).wf(),
        irq < IRQ_MAX,
    ensures
        final(fragments).wf(),
        final(untyped).wf(),
        final(slots).wf(),
        final(slots).free().subset_of(old(slots).free()),
        (*final(manager)) matches Some(m) ==> m.wf(),
        r matches Ok(line) ==> line@.0 == irq && (*final(manager)) is Some
            && !final(slots).free().contains(line@.1 as int),
        r matches Err(err) ==> err != KError::NoError,
        extends(old(k)@, final(k)@),
        (*old(manager)) matches Some(m) ==> *final(manager) == *old(manager) && final(fragments)@
            == old(fragments)@ && final(untyped)@ == old(untyped)@ && line_requested(
            m@,
            irq,
            old(slots)@,
            old(k)@,
            line_view(r),
            final(slots)@,
            final(k)@,
        ),
        (*old(manager)) is None && (*final(manager)) is None ==> r is Err && manager_made(
            old(fragments)@,
            old(untyped)@,
            old(slots)@,
            old(k)@,
            Err(r->Err_0),
            final(fragments)@,
            final(untyped)@,
            final(slots)@,
            final(k)@,
        ),
        (*old(manager)) is None && (*final(manager)) is Some ==> exists|
            mid: Seq<Span>,
            rec: Seq<Event>,
        |
            #[trigger] manager_made(
                old(fragments)@,
                old(untyped)@,
                old(slots)@,
                old(k)@,
                Ok(final(manager).unwrap()@),
                final(fragments)@,
                final(untyped)@,
                mid,
                rec,
            ) && line_requested(
                final(manager).unwrap()@,
                irq,
                mid,
                rec,
                line_view(r),
                final(slots)@,
                final(k)@,
            ),
{
    let made = get_manager(manager, fragments, untyped, slots, k);
    let ghost mid = slots@;
    let ghost rec = k@;
    made?;
    match manager {
        Some(m) => {
            let r = m.request(irq, slots, k);
            proof {
                if (*old(manager)) is None {
                    assert(manager_made(
                        old(fragments)@,
                        old(untyped)@,
                        old(slots)@,
                        old(k)@,
                        Ok(m@),
                        fragments@,
                        untyped@,
                        mid,
                        rec,
                    ));
                }
            }
            r
        },
        None => Err(KError::IllegalOperation),
    }
}

} // verus!
