//! I/O ports, and how the record of the kernel calls is read as an exchange with them.
//!
//! A reading starts at a place in the record and says what must stand there: `got_at`
//! one byte read from a port, `put_at` one byte written to it, `polled` a wait for a bit
//! of a status port. The drivers build the reading of a whole operation from these. An
//! operation that began at place `n` and left the record `rec` promises that its
//! reading of `rec` from `n` on is well-formed, ends where `rec` ends and has the
//! operation's result as its value, and that the same holds of every record that `rec`
//! grows into.
use vstd::prelude::*;
use crate::mantle::kio::extends;
use crate::kobject::steps::group_record;
use crate::mantle::calls;
use crate::mantle::calls::{invocation, verdict};
use crate::mantle::kernel::KError;
use crate::mantle::kernel;
use crate::mantle::kio::{answer_of, Answer, Event, Syscalls, Machine};

verus! {

broadcast use group_record;

/// One I/O port. Its view is the port's number.
pub struct IOPort {
    port: u16,
}

/// A range of `count` I/O ports from `first` on.
pub struct IOPortSet {
    first: u16,
    count: u16,
}

/// The ports from `first_port` on, `count` of them.
pub fn request(first_port: u16, count: u16) -> (r: IOPortSet)
    ensures
        r.first() == first_port,
        r.count() == count,
{
    IOPortSet { first: first_port, count }
}

/// The one port `port`.
pub fn request_one(port: u16) -> (r: IOPort)
    ensures
        r@ == port,
{
    IOPort { port }
}

/// The record `after` is the record `before` with the step `step`, whose answer is the
/// one recorded, and, where the kernel refused it, the fault.
pub open spec fn stepped(
    before: Seq<Event>,
    after: Seq<Event>,
    step: spec_fn(Answer) -> Event,
) -> bool {
    let n = before.len() as int;
    let answer = answer_of(after[n]);
    if verdict(answer) == KError::NoError {
        after == before.push(step(answer))
    } else {
        after == before.push(step(answer)).push(Event::Fault { err: verdict(answer) })
    }
}

/// The step of reading a byte from the I/O port `port`.
pub open spec fn port_in(port: u16, answer: Answer) -> Event {
    invocation(
        kernel::CAP_INIT_IOPORT as usize,
        kernel::TAG_X86_IOPORT_IN8,
        0,
        2,
        port as usize,
        0,
        0,
        0,
        answer,
    )
}

/// The step of writing the byte `value` to the I/O port `port`.
pub open spec fn port_out(port: u16, value: u8, answer: Answer) -> Event {
    invocation(
        kernel::CAP_INIT_IOPORT as usize,
        kernel::TAG_X86_IOPORT_OUT8,
        0,
        2,
        port as usize,
        value as usize,
        0,
        0,
        answer,
    )
}

/// What reading a record from some place on has found: whether the record holds there
/// what was looked for, the place after it, and the value that was read out of it.
pub ghost struct Run<T> {
    pub ok: bool,
    pub at: int,
    pub value: T,
}

/// The place after the step at `at`: a step that the kernel refused is followed by the
/// fault.
pub open spec fn past(rec: Seq<Event>, at: int) -> int {
    if verdict(answer_of(rec[at])) == KError::NoError {
        at + 1
    } else {
        at + 2
    }
}

/// The record holds a step at `at` and, where the kernel refused it, the fault after it.
pub open spec fn step_at(rec: Seq<Event>, at: int) -> bool {
    0 <= at < rec.len() && (verdict(answer_of(rec[at])) != KError::NoError ==> at + 1 < rec.len()
        && rec[at + 1] == Event::Fault { err: verdict(answer_of(rec[at])) })
}

/// The record read at `at` as one reading of the port `port`: the byte that was read.
pub open spec fn got_at(rec: Seq<Event>, at: int, port: u16) -> Run<u8> {
    Run {
        ok: step_at(rec, at) && rec[at] == port_in(port, answer_of(rec[at])),
        at: past(rec, at),
        value: (answer_of(rec[at]).mr0 % 0x100) as u8,
    }
}

/// The record read at `at` as one writing of `value` to the port `port`.
pub open spec fn put_at(rec: Seq<Event>, at: int, port: u16, value: u8) -> Run<()> {
    Run {
        ok: step_at(rec, at) && rec[at] == port_out(port, value, answer_of(rec[at])),
        at: past(rec, at),
        value: (),
    }
}

impl<T> Run<T> {
    /// The same reading with another value.
    pub open spec fn with<U>(self, value: U) -> Run<U> {
        Run { ok: self.ok, at: self.at, value }
    }
}

/// The record read at `at` as looks at the port `port`, up to the first that shows a
/// bit of `mask`, and `spins` of them at most: whether one showed such a bit.
pub open spec fn polled(rec: Seq<Event>, at: int, port: u16, mask: u8, spins: nat) -> Run<bool>
    decreases spins,
{
    if spins == 0 {
        Run { ok: true, at, value: false }
    } else {
        let status = got_at(rec, at, port);
        if !status.ok {
            status.with(false)
        } else if status.value & mask != 0 {
            status.with(true)
        } else {
            polled(rec, status.at, port, mask, (spins - 1) as nat)
        }
    }
}

/// A step that was recorded is read the same from every record that extends the one
/// in which it ended.
pub proof fn lemma_stepped_stays(
    before: Seq<Event>,
    after: Seq<Event>,
    step: spec_fn(Answer) -> Event,
    rec: Seq<Event>,
)
    requires
        stepped(before, after, step),
        extends(after, rec),
    ensures
        step_at(rec, before.len() as int),
        past(rec, before.len() as int) == after.len(),
        rec[before.len() as int] == step(answer_of(rec[before.len() as int])),
        rec[before.len() as int] == after[before.len() as int],
{
    let n = before.len() as int;
    assert(rec.subrange(0, after.len() as int)[n] == rec[n]);
    if verdict(answer_of(after[n])) != KError::NoError {
        assert(rec.subrange(0, after.len() as int)[n + 1] == rec[n + 1]);
    }
}

impl IOPort {
    pub closed spec fn view(&self) -> u16 {
        self.port
    }

    /// Reads a byte from the port. The kernel must not refuse; if it does, the machine's
    /// `fault` is told.
    pub fn get<S: Syscalls>(&self, k: &mut Machine<S>) -> (r: u8)
        ensures
            stepped(
                old(k)@,
                final(k)@,
                |answer: Answer| port_in(self@, answer),
            ),
            r == answer_of(final(k)@[old(k)@.len() as int]).mr0 % 0x100,
            extends(old(k)@, final(k)@),
            forall|rec: Seq<Event>|
                extends(final(k)@, rec) ==> #[trigger] got_at(rec, old(k)@.len() as int, self@) == (
                    Run { ok: true, at: final(k)@.len() as int, value: r }
                ),
    {
        let (kerr, out) = calls::x86_ioport_in8(k, kernel::CAP_INIT_IOPORT as usize, self.port);
        if kerr.is_error() {
            k.fault(kerr);
        }
        proof {
            assert forall|rec: Seq<Event>| extends(k@, rec) implies #[trigger] got_at(
                rec,
                old(k)@.len() as int,
                self@,
            ) == (Run { ok: true, at: k@.len() as int, value: out }) by {
                lemma_stepped_stays(old(k)@, k@, |answer: Answer| port_in(self@, answer), rec);
            }
        }
        out
    }

    /// Writes a byte to the port. The kernel must not refuse; if it does, the machine's
    /// `fault` is told.
    pub fn set<S: Syscalls>(&mut self, value: u8, k: &mut Machine<S>)
        ensures
            final(self)@ == old(self)@,
            stepped(
                old(k)@,
                final(k)@,
                |answer: Answer| port_out(old(self)@, value, answer),
            ),
            extends(old(k)@, final(k)@),
            forall|rec: Seq<Event>|
                extends(final(k)@, rec) ==> #[trigger] put_at(
                    rec,
                    old(k)@.len() as int,
                    old(self)@,
                    value,
                ) == (Run { ok: true, at: final(k)@.len() as int, value: () }),
    {
        let kerr = calls::x86_ioport_out8(k, kernel::CAP_INIT_IOPORT as usize, self.port, value);
        if kerr.is_error() {
            k.fault(kerr);
        }
        proof {
            assert forall|rec: Seq<Event>| extends(k@, rec) implies #[trigger] put_at(
                rec,
                old(k)@.len() as int,
                self@,
                value,
            ) == (Run { ok: true, at: k@.len() as int, value: () }) by {
                lemma_stepped_stays(
                    old(k)@,
                    k@,
                    |answer: Answer| port_out(self@, value, answer),
                    rec,
                );
            }
        }
    }
}

impl IOPortSet {
    pub closed spec fn first(&self) -> u16 {
        self.first
    }

    pub closed spec fn count(&self) -> u16 {
        self.count
    }

    /// The `n`th port of the range.
    pub fn get(&self, n: u16) -> (r: IOPort)
        requires
            n < self.count(),
            self.first() + n <= u16::MAX,
        ensures
            r@ == self.first() + n,
    {
        IOPort { port: self.first + n }
    }
}

} // verus!
