//! The record of what the root task did at the kernel.
use vstd::prelude::*;
use crate::mantle::kernel::KError;

verus! {

/// What comes back from a system call that waits: the badge, the message info and four
/// message registers.
pub struct Answer {
    pub badge: usize,
    pub info: usize,
    pub mr0: usize,
    pub mr1: usize,
    pub mr2: usize,
    pub mr3: usize,
}

/// One step that the root task took, with what came back from it.
pub enum Event {
    SetCap { index: u32, cptr: usize },
    SetMr { index: u32, value: usize },
    GetMr { index: u32, value: usize },
    Send { syscall: isize, dest: usize, info: usize, mr0: usize, mr1: usize, mr2: usize, mr3: usize },
    Reply { syscall: isize, info: usize, mr0: usize, mr1: usize, mr2: usize, mr3: usize },
    SendNull { syscall: isize, dest: usize, info: usize },
    Recv { syscall: isize, src: usize, answer: Answer },
    SendRecv {
        syscall: isize,
        dest: usize,
        info: usize,
        mr0: usize,
        mr1: usize,
        mr2: usize,
        mr3: usize,
        answer: Answer,
    },
    Null { syscall: isize },
    Fault { err: KError },
}

/// The record `after` is the record `before` with further steps: nothing that was
/// recorded is ever changed.
pub open spec fn extends(before: Seq<Event>, after: Seq<Event>) -> bool {
    before.len() <= after.len() && after.subrange(0, before.len() as int) == before
}

pub broadcast proof fn lemma_extends_trans(a: Seq<Event>, b: Seq<Event>, c: Seq<Event>)
    requires
        #[trigger] extends(a, b),
        #[trigger] extends(b, c),
    ensures
        extends(a, c),
{
    assert(c.subrange(0, a.len() as int) =~= b.subrange(0, a.len() as int)) by {
        assert forall|i: int| 0 <= i < a.len() implies c[i] == b[i] by {
            assert(c.subrange(0, b.len() as int)[i] == b[i]);
        }
    }
}

pub broadcast proof fn lemma_extends_by(a: Seq<Event>, tail: Seq<Event>)
    ensures
        #[trigger] extends(a, a + tail),
{
    assert((a + tail).subrange(0, a.len() as int) =~= a);
}

pub broadcast proof fn lemma_extends_push(a: Seq<Event>, e: Event)
    ensures
        #[trigger] extends(a, a.push(e)),
{
    assert(a.push(e).subrange(0, a.len() as int) =~= a);
}

pub broadcast proof fn lemma_extends_self(a: Seq<Event>)
    ensures
        #[trigger] extends(a, a),
{
    assert(a.subrange(0, a.len() as int) =~= a);
}

pub broadcast group group_extends {
    lemma_extends_trans,
    lemma_extends_by,
    lemma_extends_push,
    lemma_extends_self,
}

} // verus!
