//! The kernel invocations that the root task makes.
use vstd::prelude::*;
use crate::mantle::kio::group_extends;
use crate::mantle::kernel;
use crate::mantle::kernel::{spec_messageinfo_new, KError, MessageInfo};
use crate::mantle::kio;
use crate::mantle::kio::{extends, info_in, last_answer, Answer, Event, Machine, Syscalls};

verus! {

broadcast use group_extends;

/// The error that a reply's message info reports: the error whose code is the reply's
/// label.
pub open spec fn reply_error(info: MessageInfo) -> KError {
    KError::of_code(info / 0x1000)
}

/// The kernel's verdict in an answer.
pub open spec fn verdict(answer: Answer) -> KError {
    reply_error(info_in(answer.info))
}

/// The step of invoking the capability `service` with the label `label`, `caps`
/// capabilities from the IPC buffer and a message of `length` registers, of which the
/// first four are given; `answer` is what came back.
pub open spec fn invocation(
    service: usize,
    label: u32,
    caps: u8,
    length: u8,
    mr0: usize,
    mr1: usize,
    mr2: usize,
    mr3: usize,
    answer: Answer,
) -> Event {
    Event::SendRecv {
        syscall: kernel::SYS_CALL,
        dest: service,
        info: spec_messageinfo_new(label, 0, caps, length) as usize,
        mr0,
        mr1,
        mr2,
        mr3,
        answer,
    }
}

/// The step is none that the kernel refused: no invocation with a verdict other than
/// "no error", and no fault.
pub open spec fn no_refusal(e: Event) -> bool {
    match e {
        Event::SendRecv { syscall, answer, .. } => syscall == kernel::SYS_CALL ==> verdict(answer)
            == KError::NoError,
        Event::Fault { .. } => false,
        _ => true,
    }
}

/// The kernel agreed to everything that the record `after` holds beyond the record
/// `before`.
pub open spec fn agreed(before: Seq<Event>, after: Seq<Event>) -> bool {
    forall|i: int| before.len() <= i < after.len() ==> no_refusal(#[trigger] after[i])
}

/// Where the kernel agreed to all of a stretch of the record, it agreed to each part.
pub proof fn lemma_agreed_parts(a: Seq<Event>, b: Seq<Event>, c: Seq<Event>)
    requires
        extends(a, b),
        extends(b, c),
    ensures
        agreed(a, c) <==> agreed(a, b) && agreed(b, c),
{
    if agreed(a, c) {
        assert forall|i: int| a.len() <= i < b.len() implies no_refusal(#[trigger] b[i]) by {
            assert(c.subrange(0, b.len() as int)[i] == c[i]);
        }
    }
    if agreed(a, b) && agreed(b, c) {
        assert forall|i: int| a.len() <= i < c.len() implies no_refusal(#[trigger] c[i]) by {
            if i < b.len() {
                assert(c.subrange(0, b.len() as int)[i] == c[i]);
            }
        }
    }
}

/// The refusal at place `i` of the record was made good: the kernel had missed something
/// (a failed lookup), and it agreed to the eight steps after it. Where the kernel misses
/// a page table for a frame, these are the making and the mapping of the page table and
/// the second mapping of the frame.
pub open spec fn made_good(rec: Seq<Event>, i: int) -> bool {
    &&& 0 <= i && i + 8 < rec.len()
    &&& rec[i] matches Event::SendRecv { answer, .. } && verdict(answer) == KError::FailedLookup
    &&& forall|j: int| i < j <= i + 8 ==> no_refusal(#[trigger] rec[j])
}

/// The kernel refused nothing of what the record `after` holds beyond `before` but what
/// was made good.
pub open spec fn willing(before: Seq<Event>, after: Seq<Event>) -> bool {
    forall|i: int|
        before.len() <= i < after.len() ==> no_refusal(#[trigger] after[i]) || made_good(after, i)
}

/// One of the last `m` steps that the record `after` holds beyond `before` is a refusal.
pub open spec fn refused_near_end(before: Seq<Event>, after: Seq<Event>, m: int) -> bool {
    exists|i: int|
        before.len() <= i && after.len() - m <= i < after.len() && !no_refusal(#[trigger] after[i])
}

/// A kernel that agreed to everything was willing.
pub proof fn lemma_agreed_willing(before: Seq<Event>, after: Seq<Event>)
    requires
        agreed(before, after),
    ensures
        willing(before, after),
{
}

/// A refusal among the last eight steps was not made good.
pub proof fn lemma_refused_not_willing(before: Seq<Event>, after: Seq<Event>, m: int)
    requires
        refused_near_end(before, after, m),
        m <= 8,
    ensures
        !willing(before, after),
{
    let i = choose|i: int|
        before.len() <= i && after.len() - m <= i < after.len() && !no_refusal(#[trigger] after[i]);
    assert(!made_good(after, i));
}

/// A refusal near the end of a part of the record is near the end of the whole, as far
/// as the record grew after it.
pub proof fn lemma_refused_extends(
    before: Seq<Event>,
    mid: Seq<Event>,
    done: Seq<Event>,
    after: Seq<Event>,
    m: int,
    more: int,
)
    requires
        before.len() <= mid.len(),
        refused_near_end(mid, done, m),
        extends(done, after),
        after.len() <= done.len() + more,
    ensures
        refused_near_end(before, after, m + more),
{
    let i = choose|i: int|
        mid.len() <= i && done.len() - m <= i < done.len() && !no_refusal(#[trigger] done[i]);
    assert(after.subrange(0, done.len() as int)[i] == after[i]);
    assert(!no_refusal(after[i]));
}

/// Where the kernel did not agree to all of at most `m` steps, one of the last `m`
/// steps is a refusal.
pub proof fn lemma_not_agreed_refused(before: Seq<Event>, after: Seq<Event>, m: int)
    requires
        !agreed(before, after),
        after.len() <= before.len() + m,
    ensures
        refused_near_end(before, after, m),
{
    let i = choose|i: int| before.len() <= i < after.len() && !no_refusal(#[trigger] after[i]);
    assert(!no_refusal(after[i]));
}

/// Where the last step of the record is an invocation that the kernel refused, a
/// refusal is at the end.
pub proof fn lemma_refused_last(before: Seq<Event>, after: Seq<Event>)
    requires
        before.len() < after.len(),
        !no_refusal(after.last()),
    ensures
        refused_near_end(before, after, 1),
{
    assert(!no_refusal(after[after.len() - 1]));
}

/// Reads the kernel's verdict out of the answer to an invocation.
pub fn handle_err(outputs: (MessageInfo, usize, usize, usize, usize), quiet: bool) -> (r: KError)
    ensures
        r == reply_error(outputs.0),
{
    KError::from_code(kernel::messageinfo_get_label(outputs.0))
}

fn call_0<S: Syscalls>(k: &mut Machine<S>, service: usize, label: u32, caps: u8) -> (r: KError)
    requires
        label <= 0xfffff,
        caps <= 3,
    ensures
        final(k)@ == old(k)@.push(
            invocation(service, label, caps, 0, 0, 0, 0, 0, last_answer(final(k)@)),
        ),
        r == verdict(last_answer(final(k)@)),
        extends(old(k)@, final(k)@),
{
    let tag = kernel::messageinfo_new(label, 0, caps, 0);
    handle_err(kio::call_with_mrs(k, service, tag, 0, 0, 0, 0), false)
}

fn call_1<S: Syscalls>(k: &mut Machine<S>, service: usize, label: u32, caps: u8, mr0: usize) -> (r:
    KError)
    requires
        label <= 0xfffff,
        caps <= 3,
    ensures
        final(k)@ == old(k)@.push(
            invocation(service, label, caps, 2, mr0, 0, 0, 0, last_answer(final(k)@)),
        ),
        r == verdict(last_answer(final(k)@)),
        extends(old(k)@, final(k)@),
{
    let tag = kernel::messageinfo_new(label, 0, caps, 2);
    handle_err(kio::call_with_mrs(k, service, tag, mr0, 0, 0, 0), false)
}

fn call_1o<S: Syscalls>(k: &mut Machine<S>, service: usize, label: u32, caps: u8, mr0: usize) -> (r: (
    KError,
    usize,
    usize,
    usize,
    usize,
))
    requires
        label <= 0xfffff,
        caps <= 3,
    ensures
        final(k)@ == old(k)@.push(
            invocation(service, label, caps, 2, mr0, 0, 0, 0, last_answer(final(k)@)),
        ),
        r == (
            verdict(last_answer(final(k)@)),
            last_answer(final(k)@).mr0,
            last_answer(final(k)@).mr1,
            last_answer(final(k)@).mr2,
            last_answer(final(k)@).mr3,
        ),
        extends(old(k)@, final(k)@),
{
    let tag = kernel::messageinfo_new(label, 0, caps, 2);
    let outputs = kio::call_with_mrs(k, service, tag, mr0, 0, 0, 0);
    (
        handle_err(outputs, label == kernel::TAG_X86_IOPORT_IN8),
        outputs.1,
        outputs.2,
        outputs.3,
        outputs.4,
    )
}

fn call_2<S: Syscalls>(
    k: &mut Machine<S>,
    service: usize,
    label: u32,
    caps: u8,
    mr0: usize,
    mr1: usize,
) -> (r: KError)
    requires
        label <= 0xfffff,
        caps <= 3,
    ensures
        final(k)@ == old(k)@.push(
            invocation(service, label, caps, 2, mr0, mr1, 0, 0, last_answer(final(k)@)),
        ),
        r == verdict(last_answer(final(k)@)),
        extends(old(k)@, final(k)@),
{
    let tag = kernel::messageinfo_new(label, 0, caps, 2);
    handle_err(
        kio::call_with_mrs(k, service, tag, mr0, mr1, 0, 0),
        label == kernel::TAG_X86_IOPORT_OUT8,
    )
}

fn call_3<S: Syscalls>(
    k: &mut Machine<S>,
    service: usize,
    label: u32,
    caps: u8,
    mr0: usize,
    mr1: usize,
    mr2: usize,
) -> (r: KError)
    requires
        label <= 0xfffff,
        caps <= 3,
    ensures
        final(k)@ == old(k)@.push(
            invocation(service, label, caps, 3, mr0, mr1, mr2, 0, last_answer(final(k)@)),
        ),
        r == verdict(last_answer(final(k)@)),
        extends(old(k)@, final(k)@),
{
    let tag = kernel::messageinfo_new(label, 0, caps, 3);
    handle_err(kio::call_with_mrs(k, service, tag, mr0, mr1, mr2, 0), false)
}

fn call_4<S: Syscalls>(
    k: &mut Machine<S>,
    service: usize,
    label: u32,
    caps: u8,
    mr0: usize,
    mr1: usize,
    mr2: usize,
    mr3: usize,
) -> (r: KError)
    requires
        label <= 0xfffff,
        caps <= 3,
    ensures
        final(k)@ == old(k)@.push(
            invocation(service, label, caps, 4, mr0, mr1, mr2, mr3, last_answer(final(k)@)),
        ),
        r == verdict(last_answer(final(k)@)),
        extends(old(k)@, final(k)@),
{
    let tag = kernel::messageinfo_new(label, 0, caps, 4);
    handle_err(kio::call_with_mrs(k, service, tag, mr0, mr1, mr2, mr3), false)
}

fn call_6<S: Syscalls>(
    k: &mut Machine<S>,
    service: usize,
    label: u32,
    caps: u8,
    mr0: usize,
    mr1: usize,
    mr2: usize,
    mr3: usize,
    mr4: usize,
    mr5: usize,
) -> (r: KError)
    requires
        label <= 0xfffff,
        caps <= 3,
    ensures
        final(k)@ == old(k)@ + seq![
            Event::SetMr { index: 4, value: mr4 },
            Event::SetMr { index: 5, value: mr5 },
            invocation(service, label, caps, 6, mr0, mr1, mr2, mr3, last_answer(final(k)@)),
        ],
        r == verdict(last_answer(final(k)@)),
        extends(old(k)@, final(k)@),
{
    let tag = kernel::messageinfo_new(label, 0, caps, 6);
    kio::set_mr(k, 4, mr4);
    kio::set_mr(k, 5, mr5);
    let r = handle_err(kio::call_with_mrs(k, service, tag, mr0, mr1, mr2, mr3), false);
    assert(k@ =~= old(k)@ + seq![
        Event::SetMr { index: 4, value: mr4 },
        Event::SetMr { index: 5, value: mr5 },
        k@.last(),
    ]);
    r
}

/// The steps of a retype: the CNode is named in the IPC buffer, the last two of the six
/// arguments go to the IPC buffer, and the untyped is invoked with the first four.
pub open spec fn retype_steps(
    service: usize,
    objtype: usize,
    size_bits: usize,
    root: usize,
    node_index: usize,
    node_depth: usize,
    node_offset: usize,
    num_objects: usize,
    answer: Answer,
) -> Seq<Event> {
    seq![
        Event::SetCap { index: 0, cptr: root },
        Event::SetMr { index: 4, value: node_offset },
        Event::SetMr { index: 5, value: num_objects },
        invocation(
            service,
            kernel::TAG_UNTYPED_RETYPE,
            1,
            6,
            objtype,
            size_bits,
            node_index,
            node_depth,
            answer,
        ),
    ]
}

/// Asks the kernel to retype the untyped `service` into `num_objects` objects of kind
/// `objtype`, placed from slot `node_offset` on in the CNode found from `root`.
pub fn untyped_retype<S: Syscalls>(
    k: &mut Machine<S>,
    service: usize,
    objtype: usize,
    size_bits: usize,
    root: usize,
    node_index: usize,
    node_depth: usize,
    node_offset: usize,
    num_objects: usize,
) -> (r: KError)
    ensures
        final(k)@ == old(k)@ + retype_steps(
            service,
            objtype,
            size_bits,
            root,
            node_index,
            node_depth,
            node_offset,
            num_objects,
            last_answer(final(k)@),
        ),
        r == verdict(last_answer(final(k)@)),
        extends(old(k)@, final(k)@),
{
    kio::set_cap(k, 0, root);
    let r = call_6(
        k,
        service,
        kernel::TAG_UNTYPED_RETYPE,
        1,
        objtype,
        size_bits,
        node_index,
        node_depth,
        node_offset,
        num_objects,
    );
    assert(k@ =~= old(k)@ + retype_steps(
        service,
        objtype,
        size_bits,
        root,
        node_index,
        node_depth,
        node_offset,
        num_objects,
        last_answer(k@),
    ));
    r
}

/// Asks the kernel to empty the slot `index` of the CNode `service`.
pub fn cnode_delete<S: Syscalls>(k: &mut Machine<S>, service: usize, index: usize, depth: u8) -> (r:
    KError)
    ensures
        final(k)@ == old(k)@.push(
            invocation(
                service,
                kernel::TAG_CNODE_DELETE,
                0,
                2,
                index,
                depth as usize,
                0,
                0,
                last_answer(final(k)@),
            ),
        ),
        r == verdict(last_answer(final(k)@)),
        extends(old(k)@, final(k)@),
{
    call_2(k, service, kernel::TAG_CNODE_DELETE, 0, index, depth as usize)
}

/// Asks the kernel to map the frame `service` at `vaddr` in the address space `vroot`.
pub fn x86_page_map<S: Syscalls>(
    k: &mut Machine<S>,
    service: usize,
    vroot: usize,
    vaddr: usize,
    rights: usize,
    vmattrs: usize,
) -> (r: KError)
    ensures
        final(k)@ == old(k)@ + seq![
            Event::SetCap { index: 0, cptr: vroot },
            invocation(
                service,
                kernel::TAG_X86_PAGE_MAP,
                1,
                3,
                vaddr,
                rights,
                vmattrs,
                0,
                last_answer(final(k)@),
            ),
        ],
        r == verdict(last_answer(final(k)@)),
        extends(old(k)@, final(k)@),
{
    kio::set_cap(k, 0, vroot);
    let r = call_3(k, service, kernel::TAG_X86_PAGE_MAP, 1, vaddr, rights, vmattrs);
    assert(k@ =~= old(k)@ + seq![Event::SetCap { index: 0, cptr: vroot }, k@.last()]);
    r
}

pub fn x86_page_unmap<S: Syscalls>(k: &mut Machine<S>, service: usize) -> (r: KError)
    ensures
        final(k)@ == old(k)@.push(
            invocation(
                service,
                kernel::TAG_X86_PAGE_UNMAP,
                0,
                0,
                0,
                0,
                0,
                0,
                last_answer(final(k)@),
            ),
        ),
        r == verdict(last_answer(final(k)@)),
        extends(old(k)@, final(k)@),
{
    call_0(k, service, kernel::TAG_X86_PAGE_UNMAP, 0)
}

/// Asks the kernel to map the page table `service` at `vaddr` in the address space
/// `vroot`.
pub fn x86_page_table_map<S: Syscalls>(
    k: &mut Machine<S>,
    service: usize,
    vroot: usize,
    vaddr: usize,
    vmattrs: usize,
) -> (r: KError)
    ensures
        final(k)@ == old(k)@ + seq![
            Event::SetCap { index: 0, cptr: vroot },
            invocation(
                service,
                kernel::TAG_X86_PAGETABLE_MAP,
                1,
                2,
                vaddr,
                vmattrs,
                0,
                0,
                last_answer(final(k)@),
            ),
        ],
        r == verdict(last_answer(final(k)@)),
        extends(old(k)@, final(k)@),
{
    kio::set_cap(k, 0, vroot);
    let r = call_2(k, service, kernel::TAG_X86_PAGETABLE_MAP, 1, vaddr, vmattrs);
    assert(k@ =~= old(k)@ + seq![Event::SetCap { index: 0, cptr: vroot }, k@.last()]);
    r
}

pub fn x86_page_table_unmap<S: Syscalls>(k: &mut Machine<S>, service: usize) -> (r: KError)
    ensures
        final(k)@ == old(k)@.push(
            invocation(
                service,
                kernel::TAG_X86_PAGETABLE_UNMAP,
                0,
                0,
                0,
                0,
                0,
                0,
                last_answer(final(k)@),
            ),
        ),
        r == verdict(last_answer(final(k)@)),
        extends(old(k)@, final(k)@),
{
    call_0(k, service, kernel::TAG_X86_PAGETABLE_UNMAP, 0)
}

/// The low eight bits of a register.
pub fn byte_of_word(word: usize) -> (r: u8)
    ensures
        r == word % 0x100,
{
    assert((word as u64 & 0xffu64) == (word as u64) % 0x100u64) by (bit_vector);
    ((word as u64) & 0xffu64) as u8
}

/// Reads a byte from the I/O port `port`: the low byte of the answer's first register.
pub fn x86_ioport_in8<S: Syscalls>(k: &mut Machine<S>, service: usize, port: u16) -> (r: (KError, u8))
    ensures
        final(k)@ == old(k)@.push(
            invocation(
                service,
                kernel::TAG_X86_IOPORT_IN8,
                0,
                2,
                port as usize,
                0,
                0,
                0,
                last_answer(final(k)@),
            ),
        ),
        r.0 == verdict(last_answer(final(k)@)),
        r.1 == last_answer(final(k)@).mr0 % 0x100,
        extends(old(k)@, final(k)@),
{
    let out = call_1o(k, service, kernel::TAG_X86_IOPORT_IN8, 0, port as usize);
    (out.0, byte_of_word(out.1))
}

/// Writes the byte `data` to the I/O port `port`.
pub fn x86_ioport_out8<S: Syscalls>(k: &mut Machine<S>, service: usize, port: u16, data: u8) -> (r:
    KError)
    ensures
        final(k)@ == old(k)@.push(
            invocation(
                service,
                kernel::TAG_X86_IOPORT_OUT8,
                0,
                2,
                port as usize,
                data as usize,
                0,
                0,
                last_answer(final(k)@),
            ),
        ),
        r == verdict(last_answer(final(k)@)),
        extends(old(k)@, final(k)@),
{
    call_2(k, service, kernel::TAG_X86_IOPORT_OUT8, 0, port as usize, data as usize)
}

/// Asks the kernel for the handler of interrupt line `irq`, to be placed in slot `index`
/// of the CNode found from `root`.
pub fn irqcontrol_get<S: Syscalls>(
    k: &mut Machine<S>,
    service: usize,
    irq: u32,
    root: usize,
    index: usize,
    depth: usize,
) -> (r: KError)
    ensures
        final(k)@ == old(k)@ + seq![
            Event::SetCap { index: 0, cptr: root },
            invocation(
                service,
                kernel::TAG_IRQ_ISSUE_IRQ_HANDLER,
                1,
                3,
                irq as usize,
                index,
                depth,
                0,
                last_answer(final(k)@),
            ),
        ],
        r == verdict(last_answer(final(k)@)),
        extends(old(k)@, final(k)@),
{
    kio::set_cap(k, 0, root);
    let r = call_3(k, service, kernel::TAG_IRQ_ISSUE_IRQ_HANDLER, 1, irq as usize, index, depth);
    assert(k@ =~= old(k)@ + seq![Event::SetCap { index: 0, cptr: root }, k@.last()]);
    r
}

pub fn irqhandler_ack<S: Syscalls>(k: &mut Machine<S>, service: usize) -> (r: KError)
    ensures
        final(k)@ == old(k)@.push(
            invocation(service, kernel::TAG_IRQ_ACK_IRQ, 0, 0, 0, 0, 0, 0, last_answer(final(k)@)),
        ),
        r == verdict(last_answer(final(k)@)),
        extends(old(k)@, final(k)@),
{
    call_0(k, service, kernel::TAG_IRQ_ACK_IRQ, 0)
}

pub fn irqhandler_clear<S: Syscalls>(k: &mut Machine<S>, service: usize) -> (r: KError)
    ensures
        final(k)@ == old(k)@.push(
            invocation(
                service,
                kernel::TAG_IRQ_CLEAR_IRQ_HANDLER,
                0,
                0,
                0,
                0,
                0,
                0,
                last_answer(final(k)@),
            ),
        ),
        r == verdict(last_answer(final(k)@)),
        extends(old(k)@, final(k)@),
{
    call_0(k, service, kernel::TAG_IRQ_CLEAR_IRQ_HANDLER, 0)
}

/// Asks the kernel to signal `notification` whenever the handler's interrupt fires.
pub fn irqhandler_set_notification<S: Syscalls>(
    k: &mut Machine<S>,
    service: usize,
    notification: usize,
) -> (r: KError)
    ensures
        final(k)@ == old(k)@ + seq![
            Event::SetCap { index: 0, cptr: notification },
            invocation(
                service,
                kernel::TAG_IRQ_SET_IRQ_HANDLER,
                1,
                0,
                0,
                0,
                0,
                0,
                last_answer(final(k)@),
            ),
        ],
        r == verdict(last_answer(final(k)@)),
        extends(old(k)@, final(k)@),
{
    kio::set_cap(k, 0, notification);
    let r = call_0(k, service, kernel::TAG_IRQ_SET_IRQ_HANDLER, 1);
    assert(k@ =~= old(k)@ + seq![Event::SetCap { index: 0, cptr: notification }, k@.last()]);
    r
}

} // verus!
