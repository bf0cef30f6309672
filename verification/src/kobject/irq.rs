use vstd::prelude::*;
use crate::mantle::kio::extends;
use crate::kobject::steps::group_record;
use crate::crust;
use crate::kobject::cap::{deleted, Cap, CapSlot};
use crate::kobject::notification::Notification;
use crate::mantle::calls;
use crate::mantle::calls::{invocation, verdict};
use crate::mantle::kernel;
use crate::mantle::kernel::KError;
use crate::mantle::kio::{last_answer, Event, Syscalls, Machine};

verus! {

broadcast use group_record;

/// The capability that hands out interrupt handlers. Its view is its slot.
pub struct IRQControl {
    cap: Cap,
}

impl IRQControl {
    pub closed spec fn view(&self) -> usize {
        self.cap@
    }

    pub fn from_cap(base: Cap) -> (r: IRQControl)
        ensures
            r@ == base@,
    {
        IRQControl { cap: base }
    }

    /// Asks the kernel for the handler of line `irq` in the slot `output_slot`. On the
    /// kernel's refusal the slot comes back.
    pub fn get<S: Syscalls>(&self, irq: u32, output_slot: CapSlot, k: &mut Machine<S>) -> (r: Result<
        IRQHandler,
        (KError, CapSlot),
    >)
        ensures
            r matches Ok(h) ==> h@ == output_slot@,
            r matches Err((err, slot)) ==> err != KError::NoError && slot == output_slot && err
                == verdict(last_answer(final(k)@)),
            r is Ok <==> verdict(last_answer(final(k)@)) == KError::NoError,
            final(k)@ == old(k)@ + seq![
                Event::SetCap { index: 0, cptr: crust::ROOT_SLOT },
                invocation(
                    self@,
                    kernel::TAG_IRQ_ISSUE_IRQ_HANDLER,
                    1,
                    3,
                    irq as usize,
                    output_slot@,
                    crust::ROOT_BITS,
                    0,
                    last_answer(final(k)@),
                ),
            ],
            extends(old(k)@, final(k)@),
    {
        let err = calls::irqcontrol_get(
            k,
            self.cap.peek_index(),
            irq,
            crust::ROOT_SLOT,
            output_slot.peek_index(),
            crust::ROOT_BITS,
        );
        if err.is_error() {
            Err((err, output_slot))
        } else {
            Ok(IRQHandler { cap: output_slot.assert_populated() })
        }
    }
}

/// The handler of one interrupt line. Its view is its slot.
pub struct IRQHandler {
    cap: Cap,
}

impl IRQHandler {
    pub closed spec fn view(&self) -> usize {
        self.cap@
    }

    pub fn peek_index(&self) -> (r: usize)
        ensures
            r == self@,
    {
        self.cap.peek_index()
    }

    /// Has the kernel delete the handler; its slot comes back.
    pub fn free<S: Syscalls>(self, k: &mut Machine<S>) -> (r: CapSlot)
        ensures
            r@ == self@,
            deleted(old(k)@, self@, final(k)@),
            extends(old(k)@, final(k)@),
    {
        self.cap.delete(k)
    }

    /// Tells the kernel that the interrupt was handled, so that the line can fire again.
    pub fn ack<S: Syscalls>(&self, k: &mut Machine<S>) -> (r: Result<(), KError>)
        ensures
            r matches Err(err) ==> err != KError::NoError && err == verdict(
                last_answer(final(k)@),
            ),
            r is Ok <==> verdict(last_answer(final(k)@)) == KError::NoError,
            final(k)@ == old(k)@.push(
                invocation(self@, kernel::TAG_IRQ_ACK_IRQ, 0, 0, 0, 0, 0, 0, last_answer(final(k)@)),
            ),
            extends(old(k)@, final(k)@),
    {
        calls::irqhandler_ack(k, self.cap.peek_index()).to_result()
    }

    pub fn clear<S: Syscalls>(&self, k: &mut Machine<S>) -> (r: Result<(), KError>)
        ensures
            r matches Err(err) ==> err != KError::NoError && err == verdict(
                last_answer(final(k)@),
            ),
            r is Ok <==> verdict(last_answer(final(k)@)) == KError::NoError,
            final(k)@ == old(k)@.push(
                invocation(
                    self@,
                    kernel::TAG_IRQ_CLEAR_IRQ_HANDLER,
                    0,
                    0,
                    0,
                    0,
                    0,
                    0,
                    last_answer(final(k)@),
                ),
            ),
            extends(old(k)@, final(k)@),
    {
        calls::irqhandler_clear(k, self.cap.peek_index()).to_result()
    }

    /// Has the kernel signal `notification` when the line fires.
    pub fn set_notification<S: Syscalls>(&self, notification: &Notification, k: &mut Machine<S>) -> (r: Result<
        (),
        KError,
    >)
        ensures
            r matches Err(err) ==> err != KError::NoError && err == verdict(
                last_answer(final(k)@),
            ),
            r is Ok <==> verdict(last_answer(final(k)@)) == KError::NoError,
            final(k)@ == old(k)@ + seq![
                Event::SetCap { index: 0, cptr: notification@.slot },
                invocation(
                    self@,
                    kernel::TAG_IRQ_SET_IRQ_HANDLER,
                    1,
                    0,
                    0,
                    0,
                    0,
                    0,
                    last_answer(final(k)@),
                ),
            ],
            extends(old(k)@, final(k)@),
    {
        calls::irqhandler_set_notification(
            k,
            self.cap.peek_index(),
            notification.peek_index(),
        ).to_result()
    }
}

} // verus!
