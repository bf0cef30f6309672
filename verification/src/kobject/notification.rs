use vstd::prelude::*;
use crate::mantle::kio::extends;
use crate::kobject::steps::group_record;
use crate::kobject::cap::{deleted, Cap, CapSlot};
use crate::kobject::untyped::{Untyped, UntypedView};
use crate::mantle::kio;
use crate::mantle::kernel;
use crate::mantle::kio::{answer_of, put_mrs, Event, Syscalls, Machine};

verus! {

broadcast use group_record;

/// What an object made from an untyped is: the slot of its capability and the untyped
/// that it was made from.
pub struct ObjectView {
    pub slot: usize,
    pub parent: UntypedView,
}

/// A notification: a word of bits that can be signalled and waited for.
pub struct Notification {
    cap: Cap,
    parent: Untyped,
}

impl Notification {
    pub closed spec fn view(&self) -> ObjectView {
        ObjectView { slot: self.cap@, parent: self.parent@ }
    }

    pub fn from_retyping(cap: Cap, parent: Untyped) -> (r: Notification)
        ensures
            r@ == (ObjectView { slot: cap@, parent: parent@ }),
    {
        Notification { cap, parent }
    }

    /// Has the kernel delete the notification; the untyped it was made from and its slot
    /// come back.
    pub fn free<S: Syscalls>(self, k: &mut Machine<S>) -> (r: (Untyped, CapSlot))
        ensures
            r.0@ == self@.parent,
            r.1@ == self@.slot,
            deleted(old(k)@, self@.slot, final(k)@),
            extends(old(k)@, final(k)@),
    {
        (self.parent, self.cap.delete(k))
    }

    pub fn signal<S: Syscalls>(&self, k: &mut Machine<S>)
        ensures
            final(k)@ == old(k)@.push(
                Event::SendNull { syscall: kernel::SYS_SEND, dest: self@.slot, info: 1 },
            ),
            extends(old(k)@, final(k)@),
    {
        kio::signal(k, self.cap.peek_index())
    }

    /// Waits until bits are signalled and returns them.
    pub fn wait<S: Syscalls>(&self, k: &mut Machine<S>) -> (r: usize)
        ensures
            final(k)@ == old(k)@.push(
                Event::Recv {
                    syscall: kernel::SYS_RECV,
                    src: self@.slot,
                    answer: answer_of(final(k)@[old(k)@.len() as int]),
                },
            ) + put_mrs(answer_of(final(k)@[old(k)@.len() as int])),
            r == answer_of(final(k)@[old(k)@.len() as int]).badge,
            extends(old(k)@, final(k)@),
    {
        kio::wait(k, self.cap.peek_index())
    }

    /// Returns the bits signalled so far without waiting.
    pub fn poll<S: Syscalls>(&self, k: &mut Machine<S>) -> (r: usize)
        ensures
            final(k)@ == old(k)@.push(
                Event::Recv {
                    syscall: kernel::SYS_NBRECV,
                    src: self@.slot,
                    answer: answer_of(final(k)@[old(k)@.len() as int]),
                },
            ) + put_mrs(answer_of(final(k)@[old(k)@.len() as int])),
            r == answer_of(final(k)@[old(k)@.len() as int]).badge,
            extends(old(k)@, final(k)@),
    {
        kio::poll(k, self.cap.peek_index())
    }

    pub fn peek_index(&self) -> (r: usize)
        ensures
            r == self@.slot,
    {
        self.cap.peek_index()
    }
}

} // verus!
