//! The system calls and the operations built directly on them.
use vstd::prelude::*;
use crate::mantle::kernel;
use crate::mantle::kernel::{KError, MessageInfo};
pub use crate::mantle::record::{
    extends,
    group_extends,
    lemma_extends_by,
    lemma_extends_push,
    lemma_extends_self,
    lemma_extends_trans,
    Answer,
    Event,
};

verus! {

broadcast use group_extends;

/// How many capability pointers the IPC buffer holds.
pub const CAPS_OR_BADGES_LEN: usize = 3;

/// How many message registers the IPC buffer holds.
pub const MSG_LEN: usize = 120;

/// What lies beneath this library: the kernel's system-call instruction with the
/// registers it reads and writes, the thread's IPC buffer, and the way to stop when the
/// kernel breaks one of its own rules.
///
/// No method promises anything about what it returns, so everything proved in this
/// library holds for every kernel.
pub trait Syscalls {
    /// Stores `cptr` as the `i`th capability pointer of the IPC buffer.
    fn set_cap(&mut self, i: u32, cptr: usize)
        requires
            i < CAPS_OR_BADGES_LEN,
    ;

    /// Stores `mr` in message register `i` of the IPC buffer.
    fn set_mr(&mut self, i: u32, mr: usize)
        requires
            i < MSG_LEN,
    ;

    /// Reads message register `i` of the IPC buffer.
    fn get_mr(&mut self, i: u32) -> usize
        requires
            i < MSG_LEN,
    ;

    /// A system call that hands over a message and does not wait for an answer.
    fn sys_send(
        &mut self,
        syscall: isize,
        dest: usize,
        info: usize,
        mr0: usize,
        mr1: usize,
        mr2: usize,
        mr3: usize,
    );

    /// A system call that answers the caller that this thread last received from.
    fn sys_reply(&mut self, syscall: isize, info: usize, mr0: usize, mr1: usize, mr2: usize, mr3: usize);

    /// A system call that hands over a message without message registers.
    fn sys_send_null(&mut self, syscall: isize, dest: usize, info: usize);

    /// A system call that waits for a message: the badge, the message info and four
    /// message registers come back.
    fn sys_recv(&mut self, syscall: isize, src: usize) -> (usize, usize, usize, usize, usize, usize);

    /// A system call that hands over a message and waits for the answer: the badge, the
    /// message info and four message registers come back.
    fn sys_send_recv(
        &mut self,
        syscall: isize,
        dest: usize,
        info: usize,
        mr0: usize,
        mr1: usize,
        mr2: usize,
        mr3: usize,
    ) -> (usize, usize, usize, usize, usize, usize);

    /// A system call without arguments.
    fn sys_null(&mut self, syscall: isize);

    /// Called when the kernel refused what it must never refuse. A root task stops here
    /// for good; if the call returns, the library goes on as if the kernel had agreed.
    fn fault(&mut self, err: KError);
}

/// The system calls together with the record of every step taken through them. The
/// record is the view; it exists for the proofs only.
pub struct Machine<S: Syscalls> {
    inner: S,
    events: Ghost<Seq<Event>>,
}

impl<S: Syscalls> Machine<S> {
    pub closed spec fn view(&self) -> Seq<Event> {
        self.events@
    }

    /// The system calls that the machine is over.
    pub closed spec fn over(&self) -> S {
        self.inner
    }

    /// The machine over `inner`, with an empty record.
    pub fn new(inner: S) -> (r: Machine<S>)
        ensures
            r@ == Seq::<Event>::empty(),
            r.over() == inner,
    {
        Machine { inner, events: Ghost(Seq::empty()) }
    }

    /// What the machine is over.
    pub fn inner(&self) -> (r: &S)
        ensures
            *r == self.over(),
    {
        &self.inner
    }

    /// What the machine is over, for changing it: what it is left as is what the machine
    /// is over from then on. What is done there directly is not recorded.
    pub fn inner_mut(&mut self) -> (r: &mut S)
        ensures
            *r == old(self).over(),
            final(self).over() == *final(r),
            extends(old(self)@, final(self)@),
            final(self)@ == old(self)@,
    {
        &mut self.inner
    }

    /// Stores `cptr` as the `i`th capability pointer of the IPC buffer.
    pub fn set_cap(&mut self, i: u32, cptr: usize)
        requires
            i < CAPS_OR_BADGES_LEN,
        ensures
            extends(old(self)@, final(self)@),
            final(self)@ == old(self)@.push(Event::SetCap { index: i, cptr }),
    {
        self.inner.set_cap(i, cptr);
        self.events = Ghost(self.events@.push(Event::SetCap { index: i, cptr }));
    }

    /// Stores `mr` in message register `i` of the IPC buffer.
    pub fn set_mr(&mut self, i: u32, mr: usize)
        requires
            i < MSG_LEN,
        ensures
            extends(old(self)@, final(self)@),
            final(self)@ == old(self)@.push(Event::SetMr { index: i, value: mr }),
    {
        self.inner.set_mr(i, mr);
        self.events = Ghost(self.events@.push(Event::SetMr { index: i, value: mr }));
    }

    /// Reads message register `i` of the IPC buffer.
    pub fn get_mr(&mut self, i: u32) -> (r: usize)
        requires
            i < MSG_LEN,
        ensures
            extends(old(self)@, final(self)@),
            final(self)@ == old(self)@.push(Event::GetMr { index: i, value: r }),
    {
        let r = self.inner.get_mr(i);
        self.events = Ghost(self.events@.push(Event::GetMr { index: i, value: r }));
        r
    }

    /// A system call that hands over a message and does not wait for an answer.
    pub fn sys_send(
        &mut self,
        syscall: isize,
        dest: usize,
        info: usize,
        mr0: usize,
        mr1: usize,
        mr2: usize,
        mr3: usize,
    )
        ensures
            extends(old(self)@, final(self)@),
            final(self)@
                == old(self)@.push(Event::Send { syscall, dest, info, mr0, mr1, mr2, mr3 }),
    {
        self.inner.sys_send(syscall, dest, info, mr0, mr1, mr2, mr3);
        self.events = Ghost(
            self.events@.push(Event::Send { syscall, dest, info, mr0, mr1, mr2, mr3 }),
        );
    }

    /// A system call that answers the caller that this thread last received from.
    pub fn sys_reply(
        &mut self,
        syscall: isize,
        info: usize,
        mr0: usize,
        mr1: usize,
        mr2: usize,
        mr3: usize,
    )
        ensures
            extends(old(self)@, final(self)@),
            final(self)@ == old(self)@.push(Event::Reply { syscall, info, mr0, mr1, mr2, mr3 }),
    {
        self.inner.sys_reply(syscall, info, mr0, mr1, mr2, mr3);
        self.events = Ghost(self.events@.push(Event::Reply { syscall, info, mr0, mr1, mr2, mr3 }));
    }

    /// A system call that hands over a message without message registers.
    pub fn sys_send_null(&mut self, syscall: isize, dest: usize, info: usize)
        ensures
            extends(old(self)@, final(self)@),
            final(self)@ == old(self)@.push(Event::SendNull { syscall, dest, info }),
    {
        self.inner.sys_send_null(syscall, dest, info);
        self.events = Ghost(self.events@.push(Event::SendNull { syscall, dest, info }));
    }

    /// A system call that waits for a message.
    pub fn sys_recv(&mut self, syscall: isize, src: usize) -> (r: Answer)
        ensures
            extends(old(self)@, final(self)@),
            final(self)@ == old(self)@.push(Event::Recv { syscall, src, answer: r }),
    {
        let (badge, info, mr0, mr1, mr2, mr3) = self.inner.sys_recv(syscall, src);
        let r = Answer { badge, info, mr0, mr1, mr2, mr3 };
        self.events = Ghost(self.events@.push(Event::Recv { syscall, src, answer: r }));
        r
    }

    /// A system call that hands over a message and waits for the answer.
    pub fn sys_send_recv(
        &mut self,
        syscall: isize,
        dest: usize,
        info: usize,
        mr0: usize,
        mr1: usize,
        mr2: usize,
        mr3: usize,
    ) -> (r: Answer)
        ensures
            extends(old(self)@, final(self)@),
            final(self)@ == old(self)@.push(
                Event::SendRecv { syscall, dest, info, mr0, mr1, mr2, mr3, answer: r },
            ),
    {
        let (badge, info_out, out0, out1, out2, out3) = self.inner.sys_send_recv(
            syscall,
            dest,
            info,
            mr0,
            mr1,
            mr2,
            mr3,
        );
        let r = Answer { badge, info: info_out, mr0: out0, mr1: out1, mr2: out2, mr3: out3 };
        self.events = Ghost(
            self.events@.push(
                Event::SendRecv { syscall, dest, info, mr0, mr1, mr2, mr3, answer: r },
            ),
        );
        r
    }

    /// A system call without arguments.
    pub fn sys_null(&mut self, syscall: isize)
        ensures
            extends(old(self)@, final(self)@),
            final(self)@ == old(self)@.push(Event::Null { syscall }),
    {
        self.inner.sys_null(syscall);
        self.events = Ghost(self.events@.push(Event::Null { syscall }));
    }

    /// Reports that the kernel refused what it must never refuse.
    pub fn fault(&mut self, err: KError)
        ensures
            extends(old(self)@, final(self)@),
            final(self)@ == old(self)@.push(Event::Fault { err }),
    {
        self.inner.fault(err);
        self.events = Ghost(self.events@.push(Event::Fault { err }));
    }
}

/// What came back from a step, where the step waits for an answer.
pub open spec fn answer_of(e: Event) -> Answer {
    match e {
        Event::Recv { answer, .. } => answer,
        Event::SendRecv { answer, .. } => answer,
        _ => Answer { badge: 0, info: 0, mr0: 0, mr1: 0, mr2: 0, mr3: 0 },
    }
}

/// What came back from the last step of the record.
pub open spec fn last_answer(events: Seq<Event>) -> Answer {
    answer_of(events.last())
}

/// The message info in the low 32 bits of a register.
pub open spec fn info_in(word: usize) -> MessageInfo {
    ((word as int) % 0x1_0000_0000) as u32
}

/// The steps of reading the first four message registers, with the values read.
pub open spec fn got_mrs(mr0: usize, mr1: usize, mr2: usize, mr3: usize) -> Seq<Event> {
    seq![
        Event::GetMr { index: 0, value: mr0 },
        Event::GetMr { index: 1, value: mr1 },
        Event::GetMr { index: 2, value: mr2 },
        Event::GetMr { index: 3, value: mr3 },
    ]
}

/// The steps of storing the four message registers of an answer.
pub open spec fn put_mrs(a: Answer) -> Seq<Event> {
    seq![
        Event::SetMr { index: 0, value: a.mr0 },
        Event::SetMr { index: 1, value: a.mr1 },
        Event::SetMr { index: 2, value: a.mr2 },
        Event::SetMr { index: 3, value: a.mr3 },
    ]
}

/// The value that the step at `at` of the record read from a message register.
pub open spec fn mr_read(events: Seq<Event>, at: int) -> usize {
    match events[at] {
        Event::GetMr { value, .. } => value,
        _ => 0,
    }
}

/// The record `after` is the record `before` with the first four message registers read
/// and then the step `last` taken with them.
pub open spec fn with_mrs_then(
    before: Seq<Event>,
    after: Seq<Event>,
    last: spec_fn(usize, usize, usize, usize) -> Event,
) -> bool {
    let n = before.len() as int;
    let (m0, m1, m2, m3) = (
        mr_read(after, n),
        mr_read(after, n + 1),
        mr_read(after, n + 2),
        mr_read(after, n + 3),
    );
    after == before + got_mrs(m0, m1, m2, m3) + seq![last(m0, m1, m2, m3)]
}

pub fn set_cap<S: Syscalls>(k: &mut Machine<S>, i: u32, cptr: usize)
    requires
        i < CAPS_OR_BADGES_LEN,
    ensures
        final(k)@ == old(k)@.push(Event::SetCap { index: i, cptr }),
        extends(old(k)@, final(k)@),
{
    k.set_cap(i, cptr)
}

pub fn set_mr<S: Syscalls>(k: &mut Machine<S>, i: u32, mr: usize)
    requires
        i < MSG_LEN,
    ensures
        final(k)@ == old(k)@.push(Event::SetMr { index: i, value: mr }),
        extends(old(k)@, final(k)@),
{
    k.set_mr(i, mr)
}

pub fn get_mr<S: Syscalls>(k: &mut Machine<S>, i: u32) -> (r: usize)
    requires
        i < MSG_LEN,
    ensures
        final(k)@ == old(k)@.push(Event::GetMr { index: i, value: r }),
        extends(old(k)@, final(k)@),
{
    k.get_mr(i)
}

/// Prints one character on the kernel's debug console.
pub fn debug_put_char<S: Syscalls>(k: &mut Machine<S>, c: u8)
    ensures
        final(k)@ == old(k)@.push(
            Event::SendRecv {
                syscall: kernel::SYS_DEBUG_PUTCHAR,
                dest: c as usize,
                info: 0,
                mr0: 0,
                mr1: 0,
                mr2: 0,
                mr3: 0,
                answer: last_answer(final(k)@),
            },
        ),
        extends(old(k)@, final(k)@),
{
    let _ = k.sys_send_recv(kernel::SYS_DEBUG_PUTCHAR, c as usize, 0, 0, 0, 0, 0);
}

/// Reads the first four message registers of the IPC buffer.
fn read_mrs<S: Syscalls>(k: &mut Machine<S>) -> (r: (usize, usize, usize, usize))
    ensures
        final(k)@ == old(k)@ + got_mrs(r.0, r.1, r.2, r.3),
        r == (
            mr_read(final(k)@, old(k)@.len() as int),
            mr_read(final(k)@, old(k)@.len() as int + 1),
            mr_read(final(k)@, old(k)@.len() as int + 2),
            mr_read(final(k)@, old(k)@.len() as int + 3),
        ),
        extends(old(k)@, final(k)@),
{
    let mr0 = k.get_mr(0);
    let mr1 = k.get_mr(1);
    let mr2 = k.get_mr(2);
    let mr3 = k.get_mr(3);
    assert(k@ =~= old(k)@ + got_mrs(mr0, mr1, mr2, mr3));
    (mr0, mr1, mr2, mr3)
}

/// Stores the four message registers of an answer in the IPC buffer.
fn write_mrs<S: Syscalls>(k: &mut Machine<S>, a: &Answer)
    ensures
        final(k)@ == old(k)@ + put_mrs(*a),
        extends(old(k)@, final(k)@),
{
    k.set_mr(0, a.mr0);
    k.set_mr(1, a.mr1);
    k.set_mr(2, a.mr2);
    k.set_mr(3, a.mr3);
    assert(k@ =~= old(k)@ + put_mrs(*a));
}

/// Sends the message whose registers are in the IPC buffer.
pub fn send<S: Syscalls>(k: &mut Machine<S>, dest: usize, info: MessageInfo)
    ensures
        with_mrs_then(
            old(k)@,
            final(k)@,
            |mr0: usize, mr1: usize, mr2: usize, mr3: usize|
                Event::Send {
                    syscall: kernel::SYS_SEND,
                    dest,
                    info: info as usize,
                    mr0,
                    mr1,
                    mr2,
                    mr3,
                },
        ),
        extends(old(k)@, final(k)@),
{
    let (mr0, mr1, mr2, mr3) = read_mrs(k);
    k.sys_send(kernel::SYS_SEND, dest, info as usize, mr0, mr1, mr2, mr3);
    assert(k@ =~= old(k)@ + got_mrs(mr0, mr1, mr2, mr3) + seq![k@.last()]);
}

pub fn send_with_mrs<S: Syscalls>(
    k: &mut Machine<S>,
    dest: usize,
    info: MessageInfo,
    mr0: usize,
    mr1: usize,
    mr2: usize,
    mr3: usize,
)
    ensures
        final(k)@ == old(k)@.push(
            Event::Send { syscall: kernel::SYS_SEND, dest, info: info as usize, mr0, mr1, mr2, mr3 },
        ),
        extends(old(k)@, final(k)@),
{
    k.sys_send(kernel::SYS_SEND, dest, info as usize, mr0, mr1, mr2, mr3)
}

/// Sends without blocking the message whose registers are in the IPC buffer.
pub fn nbsend<S: Syscalls>(k: &mut Machine<S>, dest: usize, info: MessageInfo)
    ensures
        with_mrs_then(
            old(k)@,
            final(k)@,
            |mr0: usize, mr1: usize, mr2: usize, mr3: usize|
                Event::Send {
                    syscall: kernel::SYS_NBSEND,
                    dest,
                    info: info as usize,
                    mr0,
                    mr1,
                    mr2,
                    mr3,
                },
        ),
        extends(old(k)@, final(k)@),
{
    let (mr0, mr1, mr2, mr3) = read_mrs(k);
    k.sys_send(kernel::SYS_NBSEND, dest, info as usize, mr0, mr1, mr2, mr3);
    assert(k@ =~= old(k)@ + got_mrs(mr0, mr1, mr2, mr3) + seq![k@.last()]);
}

pub fn nbsend_with_mrs<S: Syscalls>(
    k: &mut Machine<S>,
    dest: usize,
    info: MessageInfo,
    mr0: usize,
    mr1: usize,
    mr2: usize,
    mr3: usize,
)
    ensures
        final(k)@ == old(k)@.push(
            Event::Send {
                syscall: kernel::SYS_NBSEND,
                dest,
                info: info as usize,
                mr0,
                mr1,
                mr2,
                mr3,
            },
        ),
        extends(old(k)@, final(k)@),
{
    k.sys_send(kernel::SYS_NBSEND, dest, info as usize, mr0, mr1, mr2, mr3)
}

/// Answers with the message whose registers are in the IPC buffer.
pub fn reply<S: Syscalls>(k: &mut Machine<S>, info: MessageInfo)
    ensures
        with_mrs_then(
            old(k)@,
            final(k)@,
            |mr0: usize, mr1: usize, mr2: usize, mr3: usize|
                Event::Reply { syscall: kernel::SYS_REPLY, info: info as usize, mr0, mr1, mr2, mr3 },
        ),
        extends(old(k)@, final(k)@),
{
    let (mr0, mr1, mr2, mr3) = read_mrs(k);
    k.sys_reply(kernel::SYS_REPLY, info as usize, mr0, mr1, mr2, mr3);
    assert(k@ =~= old(k)@ + got_mrs(mr0, mr1, mr2, mr3) + seq![k@.last()]);
}

pub fn reply_with_mrs<S: Syscalls>(
    k: &mut Machine<S>,
    info: MessageInfo,
    mr0: usize,
    mr1: usize,
    mr2: usize,
    mr3: usize,
)
    ensures
        final(k)@ == old(k)@.push(
            Event::Reply { syscall: kernel::SYS_REPLY, info: info as usize, mr0, mr1, mr2, mr3 },
        ),
        extends(old(k)@, final(k)@),
{
    k.sys_reply(kernel::SYS_REPLY, info as usize, mr0, mr1, mr2, mr3)
}

/// Signals the notification `dest`.
pub fn signal<S: Syscalls>(k: &mut Machine<S>, dest: usize)
    ensures
        final(k)@ == old(k)@.push(Event::SendNull { syscall: kernel::SYS_SEND, dest, info: 1 }),
        extends(old(k)@, final(k)@),
{
    let info = kernel::messageinfo_new(0, 0, 0, 1);
    k.sys_send_null(kernel::SYS_SEND, dest, info as usize)
}

/// The low 32 bits of a register, which hold a message-info word.
pub fn info_of_word(word: usize) -> (r: MessageInfo)
    ensures
        r == info_in(word),
{
    assert((word as u64 & 0xffff_ffffu64) == (word as u64) % 0x1_0000_0000u64) by (bit_vector);
    ((word as u64) & 0xffff_ffffu64) as u32
}

/// Waits for a message on `src`; its registers go to the IPC buffer, its info and the
/// sender's badge are returned.
pub fn recv<S: Syscalls>(k: &mut Machine<S>, src: usize) -> (r: (MessageInfo, usize))
    ensures
        final(k)@ == old(k)@.push(
            Event::Recv {
                syscall: kernel::SYS_RECV,
                src,
                answer: answer_of(final(k)@[old(k)@.len() as int]),
            },
        ) + put_mrs(answer_of(final(k)@[old(k)@.len() as int])),
        r == (
            info_in(answer_of(final(k)@[old(k)@.len() as int]).info),
            answer_of(final(k)@[old(k)@.len() as int]).badge,
        ),
        extends(old(k)@, final(k)@),
{
    let a = k.sys_recv(kernel::SYS_RECV, src);
    write_mrs(k, &a);
    (info_of_word(a.info), a.badge)
}

pub fn recv_with_mrs<S: Syscalls>(k: &mut Machine<S>, src: usize) -> (r: (
    MessageInfo,
    usize,
    usize,
    usize,
    usize,
    usize,
))
    ensures
        final(k)@ == old(k)@.push(
            Event::Recv { syscall: kernel::SYS_RECV, src, answer: last_answer(final(k)@) },
        ),
        r == (
            info_in(last_answer(final(k)@).info),
            last_answer(final(k)@).badge,
            last_answer(final(k)@).mr0,
            last_answer(final(k)@).mr1,
            last_answer(final(k)@).mr2,
            last_answer(final(k)@).mr3,
        ),
        extends(old(k)@, final(k)@),
{
    let a = k.sys_recv(kernel::SYS_RECV, src);
    (info_of_word(a.info), a.badge, a.mr0, a.mr1, a.mr2, a.mr3)
}

/// Looks for a message on `src` without waiting.
pub fn nbrecv<S: Syscalls>(k: &mut Machine<S>, src: usize) -> (r: (MessageInfo, usize))
    ensures
        final(k)@ == old(k)@.push(
            Event::Recv {
                syscall: kernel::SYS_NBRECV,
                src,
                answer: answer_of(final(k)@[old(k)@.len() as int]),
            },
        ) + put_mrs(answer_of(final(k)@[old(k)@.len() as int])),
        r == (
            info_in(answer_of(final(k)@[old(k)@.len() as int]).info),
            answer_of(final(k)@[old(k)@.len() as int]).badge,
        ),
        extends(old(k)@, final(k)@),
{
    let a = k.sys_recv(kernel::SYS_NBRECV, src);
    write_mrs(k, &a);
    (info_of_word(a.info), a.badge)
}

/// The record `after` is the record `before` with the first four message registers read,
/// the call `syscall` to `dest` made with them, and the answer's registers stored.
pub open spec fn called_through_buffer(
    before: Seq<Event>,
    after: Seq<Event>,
    syscall: isize,
    dest: usize,
    info: MessageInfo,
) -> bool {
    let n = before.len() as int;
    let answer = answer_of(after[n + 4]);
    after == before + got_mrs(
        mr_read(after, n),
        mr_read(after, n + 1),
        mr_read(after, n + 2),
        mr_read(after, n + 3),
    ) + seq![
        Event::SendRecv {
            syscall,
            dest,
            info: info as usize,
            mr0: mr_read(after, n),
            mr1: mr_read(after, n + 1),
            mr2: mr_read(after, n + 2),
            mr3: mr_read(after, n + 3),
            answer,
        },
    ] + put_mrs(answer)
}

/// Invokes `dest` with the message whose registers are in the IPC buffer and waits for
/// the answer, whose registers go there too.
pub fn call<S: Syscalls>(k: &mut Machine<S>, dest: usize, msginfo: MessageInfo) -> (r: MessageInfo)
    ensures
        called_through_buffer(old(k)@, final(k)@, kernel::SYS_CALL, dest, msginfo),
        r == info_in(answer_of(final(k)@[old(k)@.len() as int + 4]).info),
        extends(old(k)@, final(k)@),
{
    let (mr0, mr1, mr2, mr3) = read_mrs(k);
    let a = k.sys_send_recv(kernel::SYS_CALL, dest, msginfo as usize, mr0, mr1, mr2, mr3);
    let ghost mid = k@;
    write_mrs(k, &a);
    assert(k@ =~= old(k)@ + got_mrs(mr0, mr1, mr2, mr3) + seq![mid.last()] + put_mrs(a));
    info_of_word(a.info)
}

/// Invokes `dest` with a message of up to four registers and waits for the answer: its
/// info and four registers.
pub fn call_with_mrs<S: Syscalls>(
    k: &mut Machine<S>,
    dest: usize,
    msginfo: MessageInfo,
    mr0: usize,
    mr1: usize,
    mr2: usize,
    mr3: usize,
) -> (r: (MessageInfo, usize, usize, usize, usize))
    ensures
        final(k)@ == old(k)@.push(
            Event::SendRecv {
                syscall: kernel::SYS_CALL,
                dest,
                info: msginfo as usize,
                mr0,
                mr1,
                mr2,
                mr3,
                answer: last_answer(final(k)@),
            },
        ),
        r == (
            info_in(last_answer(final(k)@).info),
            last_answer(final(k)@).mr0,
            last_answer(final(k)@).mr1,
            last_answer(final(k)@).mr2,
            last_answer(final(k)@).mr3,
        ),
        extends(old(k)@, final(k)@),
{
    let a = k.sys_send_recv(kernel::SYS_CALL, dest, msginfo as usize, mr0, mr1, mr2, mr3);
    (info_of_word(a.info), a.mr0, a.mr1, a.mr2, a.mr3)
}

/// Answers the last caller and waits for the next message on `dest`.
pub fn reply_recv<S: Syscalls>(k: &mut Machine<S>, dest: usize, info: MessageInfo) -> (r: (
    MessageInfo,
    usize,
))
    ensures
        called_through_buffer(old(k)@, final(k)@, kernel::SYS_REPLY_RECV, dest, info),
        r == (
            info_in(answer_of(final(k)@[old(k)@.len() as int + 4]).info),
            answer_of(final(k)@[old(k)@.len() as int + 4]).info,
        ),
        extends(old(k)@, final(k)@),
{
    let (mr0, mr1, mr2, mr3) = read_mrs(k);
    let a = k.sys_send_recv(kernel::SYS_REPLY_RECV, dest, info as usize, mr0, mr1, mr2, mr3);
    let ghost mid = k@;
    write_mrs(k, &a);
    assert(k@ =~= old(k)@ + got_mrs(mr0, mr1, mr2, mr3) + seq![mid.last()] + put_mrs(a));
    (info_of_word(a.info), a.info)
}

pub fn reply_recv_with_mrs<S: Syscalls>(
    k: &mut Machine<S>,
    dest: usize,
    info: MessageInfo,
    mr0: usize,
    mr1: usize,
    mr2: usize,
    mr3: usize,
) -> (r: (MessageInfo, usize, usize, usize, usize, usize))
    ensures
        final(k)@ == old(k)@.push(
            Event::SendRecv {
                syscall: kernel::SYS_REPLY_RECV,
                dest,
                info: info as usize,
                mr0,
                mr1,
                mr2,
                mr3,
                answer: last_answer(final(k)@),
            },
        ),
        r == (
            info_in(last_answer(final(k)@).info),
            last_answer(final(k)@).info,
            last_answer(final(k)@).mr0,
            last_answer(final(k)@).mr1,
            last_answer(final(k)@).mr2,
            last_answer(final(k)@).mr3,
        ),
        extends(old(k)@, final(k)@),
{
    let a = k.sys_send_recv(kernel::SYS_REPLY_RECV, dest, info as usize, mr0, mr1, mr2, mr3);
    (info_of_word(a.info), a.info, a.mr0, a.mr1, a.mr2, a.mr3)
}

/// Gives up the rest of the time slice.
pub fn yield_<S: Syscalls>(k: &mut Machine<S>)
    ensures
        final(k)@ == old(k)@.push(Event::Null { syscall: kernel::SYS_YIELD }),
        extends(old(k)@, final(k)@),
{
    k.sys_null(kernel::SYS_YIELD)
}

/// Waits on the notification `src` and returns the word of bits that was signalled.
pub fn wait<S: Syscalls>(k: &mut Machine<S>, src: usize) -> (r: usize)
    ensures
        final(k)@ == old(k)@.push(
            Event::Recv {
                syscall: kernel::SYS_RECV,
                src,
                answer: answer_of(final(k)@[old(k)@.len() as int]),
            },
        ) + put_mrs(answer_of(final(k)@[old(k)@.len() as int])),
        r == answer_of(final(k)@[old(k)@.len() as int]).badge,
        extends(old(k)@, final(k)@),
{
    recv(k, src).1
}

/// Reads the word of bits signalled on `src` without waiting.
pub fn poll<S: Syscalls>(k: &mut Machine<S>, src: usize) -> (r: usize)
    ensures
        final(k)@ == old(k)@.push(
            Event::Recv {
                syscall: kernel::SYS_NBRECV,
                src,
                answer: answer_of(final(k)@[old(k)@.len() as int]),
            },
        ) + put_mrs(answer_of(final(k)@[old(k)@.len() as int])),
        r == answer_of(final(k)@[old(k)@.len() as int]).badge,
        extends(old(k)@, final(k)@),
{
    nbrecv(k, src).1
}

} // verus!
