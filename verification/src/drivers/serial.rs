//! The serial ports. Waiting for the port is bounded: each operation that waits takes the
//! number of times that it may look at the port's status.
use vstd::prelude::*;
use crate::mantle::kio::extends;
use crate::kobject::steps::group_record;
use vstd::string::StrSliceExecFns;
use crate::drivers::bits::u16_to_u8;
use crate::drivers::ioport;
use crate::drivers::ioport::{got_at, polled, put_at, IOPort, Run};
use crate::mantle::kio::{Event, Machine, Syscalls};
use crate::memory::string::{StringBuilder, VarStr, MAX_STRING_LEN};

verus! {

broadcast use group_record;

/// The rate that the divisor 1 stands for.
pub const UNSCALED_BAUD_RATE: u32 = 115200;

/// A serial port that is not set up yet. Its view is the number of its first I/O port.
pub struct HardwareSerialPort {
    port: u16,
}

/// The first serial port.
pub fn com1() -> (r: HardwareSerialPort)
    ensures
        r@ == 0x3F8,
{
    HardwareSerialPort { port: 0x3F8 }
}

/// The second serial port.
pub fn com2() -> (r: HardwareSerialPort)
    ensures
        r@ == 0x2F8,
{
    HardwareSerialPort { port: 0x2F8 }
}

/// The third serial port.
pub fn com3() -> (r: HardwareSerialPort)
    ensures
        r@ == 0x3E8,
{
    HardwareSerialPort { port: 0x3E8 }
}

/// The fourth serial port.
pub fn com4() -> (r: HardwareSerialPort)
    ensures
        r@ == 0x2E8,
{
    HardwareSerialPort { port: 0x2E8 }
}

/// A serial port that is set up: its eight registers.
pub struct HardwareSerial {
    r_data: IOPort,
    r_interrupt: IOPort,
    r_fifo: IOPort,
    r_lcr: IOPort,
    r_mcr: IOPort,
    r_lsr: IOPort,
    r_msr: IOPort,
    r_scratch: IOPort,
}

/// The divisor that is written to the port for the rate `baud`: the low sixteen bits of
/// 115200 divided by the rate.
pub open spec fn divisor_for(baud: u32) -> int {
    (UNSCALED_BAUD_RATE as int / baud as int) % 0x1_0000
}

impl HardwareSerialPort {
    pub closed spec fn view(&self) -> u16 {
        self.port
    }

    /// Sets the port up for the rate `baud`, eight bits, one stop bit, no parity.
    pub fn configure<S: Syscalls>(&self, baud: u32, k: &mut Machine<S>) -> (r: HardwareSerial)
        requires
            baud > 0,
            self@ <= u16::MAX - 7,
        ensures
            r.base() == self@,
            r.wf(),
            extends(old(k)@, final(k)@),
            forall|rec: Seq<Event>|
                extends(final(k)@, rec) ==> #[trigger] configured(
                    rec,
                    old(k)@.len() as int,
                    self@,
                    baud,
                ) == (Run { ok: true, at: final(k)@.len() as int, value: () }),
    {
        let ports = ioport::request(self.port, 8);
        let mut serial = HardwareSerial {
            r_data: ports.get(0),
            r_interrupt: ports.get(1),
            r_fifo: ports.get(2),
            r_lcr: ports.get(3),
            r_mcr: ports.get(4),
            r_lsr: ports.get(5),
            r_msr: ports.get(6),
            r_scratch: ports.get(7),
        };
        serial.initialize(baud, k);
        serial
    }
}

/// The byte that is sent for the character `c`: the character itself if it is below 256,
/// a question mark if not.
pub open spec fn byte_for(c: char) -> u8 {
    if c as u32 > 255 {
        63u8
    } else {
        (c as u32) as u8
    }
}

/// No byte of `s` ends a line.
pub open spec fn no_line_end(s: Seq<u8>) -> bool {
    forall|i: int| 0 <= i < s.len() ==> #[trigger] s[i] != 10 && s[i] != 13
}

/// A byte has arrived: the bit of the line status register that says so.
pub const STATUS_RECV_READY: u8 = 0x01;

/// The port can take a byte: the bit of the line status register that says so.
pub const STATUS_SEND_READY: u8 = 0x20;

/// The reading `run` of the record, followed by one writing of `value` to `port`.
pub open spec fn then_put(run: Run<()>, rec: Seq<Event>, port: u16, value: u8) -> Run<()> {
    if run.ok {
        put_at(rec, run.at, port, value)
    } else {
        run
    }
}

/// The record read at `at` as the setting up of the serial port at `base` for the rate
/// `baud`: interrupts off; the divisor latch opened, the divisor written low byte first,
/// and the latch closed with eight bits, one stop bit and no parity; the buffers
/// switched on and emptied; the modem lines set.
pub open spec fn configured(rec: Seq<Event>, at: int, base: u16, baud: u32) -> Run<()> {
    let low = (divisor_for(baud) % 0x100) as u8;
    let high = (divisor_for(baud) / 0x100) as u8;
    let interrupts = put_at(rec, at, (base + 1) as u16, 0x00);
    let latch = then_put(interrupts, rec, (base + 3) as u16, 0x80);
    let first = then_put(latch, rec, base, low);
    let second = then_put(first, rec, base, high);
    let line = then_put(second, rec, (base + 3) as u16, 0x03);
    let fifo = then_put(line, rec, (base + 2) as u16, 0xC7);
    then_put(fifo, rec, (base + 4) as u16, 0x0B)
}

/// The record read at `at` as the receiving of a byte: the line status is looked at
/// until a byte has arrived, `spins` times at most, and the byte is read.
pub open spec fn received(rec: Seq<Event>, at: int, base: u16, spins: nat) -> Run<Option<u8>> {
    let ready = polled(rec, at, (base + 5) as u16, STATUS_RECV_READY, spins);
    if ready.ok && ready.value {
        let got = got_at(rec, ready.at, base);
        got.with(Some(got.value))
    } else {
        ready.with(None)
    }
}

/// The record read at `at` as the sending of `byte`: the line status is looked at until
/// the port can take a byte, `spins` times at most, and the byte is written.
pub open spec fn byte_sent(rec: Seq<Event>, at: int, base: u16, byte: u8, spins: nat) -> Run<
    bool,
> {
    let ready = polled(rec, at, (base + 5) as u16, STATUS_SEND_READY, spins);
    if ready.ok && ready.value {
        put_at(rec, ready.at, base, byte).with(true)
    } else {
        ready
    }
}

/// The record read at `at` as the receiving of the rest of a line of which `got` has
/// arrived: bytes are received up to the first that ends a line, or the first for which
/// the string has no room. The value is the line, or `None` where a byte did not arrive
/// in time.
pub open spec fn line_received(
    rec: Seq<Event>,
    at: int,
    base: u16,
    got: Seq<u8>,
    spins: nat,
) -> Run<Option<Seq<u8>>>
    decreases MAX_STRING_LEN - got.len(),
{
    let byte = received(rec, at, base, spins);
    if !byte.ok || byte.value is None {
        byte.with(None)
    } else if byte.value == Some(10u8) || byte.value == Some(13u8) || got.len()
        >= MAX_STRING_LEN {
        byte.with(Some(got))
    } else {
        line_received(rec, byte.at, base, got.push(byte.value.unwrap()), spins)
    }
}

/// The record read at `at` as the sending of the characters of `text`, one after the
/// other, up to the first that the port does not take in time. The value says whether
/// all were sent.
pub open spec fn text_sent(rec: Seq<Event>, at: int, base: u16, text: Seq<char>, spins: nat) -> Run<
    bool,
>
    decreases text.len(),
{
    if text.len() == 0 {
        Run { ok: true, at, value: true }
    } else {
        let first = byte_sent(rec, at, base, byte_for(text[0]), spins);
        if !first.ok || !first.value {
            first
        } else {
            text_sent(rec, first.at, base, text.skip(1), spins)
        }
    }
}

impl HardwareSerial {
    /// The number of the port's first I/O port.
    pub closed spec fn base(&self) -> u16 {
        self.r_data@
    }

    /// The eight registers lie side by side.
    pub closed spec fn wf(&self) -> bool {
        &&& self.r_data@ <= u16::MAX - 7
        &&& self.r_interrupt@ == self.r_data@ + 1
        &&& self.r_fifo@ == self.r_data@ + 2
        &&& self.r_lcr@ == self.r_data@ + 3
        &&& self.r_mcr@ == self.r_data@ + 4
        &&& self.r_lsr@ == self.r_data@ + 5
        &&& self.r_msr@ == self.r_data@ + 6
        &&& self.r_scratch@ == self.r_data@ + 7
    }

    /// The divisor for the rate `baud`.
    pub fn divisor(baud: u32) -> (r: u16)
        requires
            baud > 0,
        ensures
            r == divisor_for(baud),
    {
        let d: u32 = UNSCALED_BAUD_RATE / baud;
        assert((d & 0xffffu32) == d % 0x1_0000u32) by (bit_vector);
        (d & 0xffff) as u16
    }

    fn initialize<S: Syscalls>(&mut self, baud: u32, k: &mut Machine<S>)
        requires
            baud > 0,
            old(self).wf(),
        ensures
            final(self).base() == old(self).base(),
            final(self).wf(),
            extends(old(k)@, final(k)@),
            forall|rec: Seq<Event>|
                extends(final(k)@, rec) ==> #[trigger] configured(
                    rec,
                    old(k)@.len() as int,
                    old(self).base(),
                    baud,
                ) == (Run { ok: true, at: final(k)@.len() as int, value: () }),
    {
        self.r_interrupt.set(0x00, k);
        self.r_lcr.set(0x80, k);
        let divisor = HardwareSerial::divisor(baud);
        let (div_low, div_high) = u16_to_u8(divisor);
        self.r_data.set(div_low, k);
        self.r_data.set(div_high, k);
        self.r_lcr.set(0x03, k);
        self.r_fifo.set(0xC7, k);
        self.r_mcr.set(0x0B, k);
    }

    /// Whether a byte has arrived: the lowest bit of the line status register, which is
    /// read once.
    pub fn recv_ready<S: Syscalls>(&mut self, k: &mut Machine<S>) -> (r: bool)
        requires
            old(self).wf(),
        ensures
            final(self).base() == old(self).base(),
            final(self).wf(),
            extends(old(k)@, final(k)@),
            r == (got_at(final(k)@, old(k)@.len() as int, (old(self).base() + 5) as u16).value
                & STATUS_RECV_READY != 0),
            forall|rec: Seq<Event>|
                extends(final(k)@, rec) ==> #[trigger] got_at(
                    rec,
                    old(k)@.len() as int,
                    (old(self).base() + 5) as u16,
                ) == (Run {
                    ok: true,
                    at: final(k)@.len() as int,
                    value: got_at(
                        final(k)@,
                        old(k)@.len() as int,
                        (old(self).base() + 5) as u16,
                    ).value,
                }),
    {
        (self.r_lsr.get(k) & STATUS_RECV_READY) != 0
    }

    /// Whether the port can take a byte: bit five of the line status register, which is
    /// read once.
    pub fn send_ready<S: Syscalls>(&mut self, k: &mut Machine<S>) -> (r: bool)
        requires
            old(self).wf(),
        ensures
            final(self).base() == old(self).base(),
            final(self).wf(),
            extends(old(k)@, final(k)@),
            r == (got_at(final(k)@, old(k)@.len() as int, (old(self).base() + 5) as u16).value
                & STATUS_SEND_READY != 0),
            forall|rec: Seq<Event>|
                extends(final(k)@, rec) ==> #[trigger] got_at(
                    rec,
                    old(k)@.len() as int,
                    (old(self).base() + 5) as u16,
                ) == (Run {
                    ok: true,
                    at: final(k)@.len() as int,
                    value: got_at(
                        final(k)@,
                        old(k)@.len() as int,
                        (old(self).base() + 5) as u16,
                    ).value,
                }),
    {
        (self.r_lsr.get(k) & STATUS_SEND_READY) != 0
    }

    /// Waits for a byte, looking at the port at most `spins` times.
    pub fn recv<S: Syscalls>(&mut self, spins: usize, k: &mut Machine<S>) -> (r: Option<u8>)
        requires
            old(self).wf(),
        ensures
            final(self).base() == old(self).base(),
            final(self).wf(),
            extends(old(k)@, final(k)@),
            forall|rec: Seq<Event>|
                extends(final(k)@, rec) ==> #[trigger] received(
                    rec,
                    old(k)@.len() as int,
                    old(self).base(),
                    spins as nat,
                ) == (Run { ok: true, at: final(k)@.len() as int, value: r }),
    {
        let mut left = spins;
        while left > 0
            invariant
                extends(old(k)@, k@),
                left <= spins,
                self.wf(),
                self.base() == old(self).base(),
                forall|rec: Seq<Event>|
                    extends(k@, rec) ==> #[trigger] polled(
                        rec,
                        old(k)@.len() as int,
                        (old(self).base() + 5) as u16,
                        STATUS_RECV_READY,
                        spins as nat,
                    ) == polled(
                        rec,
                        k@.len() as int,
                        (old(self).base() + 5) as u16,
                        STATUS_RECV_READY,
                        left as nat,
                    ),
            decreases left,
        {
            if self.recv_ready(k) {
                return Some(self.r_data.get(k));
            }
            left = left - 1;
        }
        None
    }

    pub fn recv_char<S: Syscalls>(&mut self, spins: usize, k: &mut Machine<S>) -> (r: Option<char>)
        requires
            old(self).wf(),
        ensures
            final(self).base() == old(self).base(),
            final(self).wf(),
            extends(old(k)@, final(k)@),
            forall|rec: Seq<Event>|
                extends(final(k)@, rec) ==> #[trigger] received(
                    rec,
                    old(k)@.len() as int,
                    old(self).base(),
                    spins as nat,
                ) == (Run {
                    ok: true,
                    at: final(k)@.len() as int,
                    value: match r {
                        Some(c) => Some(c as u8),
                        None => None,
                    },
                }),
            r matches Some(c) ==> (c as u32) < 256,
    {
        match self.recv(spins, k) {
            Some(b) => Some(b as char),
            None => None,
        }
    }

    /// Receives bytes up to the end of a line, or as many as a string holds. Gives up
    /// when a byte does not arrive within `spins` looks at the port.
    pub fn recv_line<S: Syscalls>(&mut self, spins: usize, k: &mut Machine<S>) -> (r: Option<VarStr>)
        requires
            old(self).wf(),
        ensures
            final(self).base() == old(self).base(),
            final(self).wf(),
            r matches Some(line) ==> line@.len() <= MAX_STRING_LEN && no_line_end(line@),
            extends(old(k)@, final(k)@),
            forall|rec: Seq<Event>|
                extends(final(k)@, rec) ==> #[trigger] line_received(
                    rec,
                    old(k)@.len() as int,
                    old(self).base(),
                    Seq::empty(),
                    spins as nat,
                ) == (Run {
                    ok: true,
                    at: final(k)@.len() as int,
                    value: match r {
                        Some(line) => Some(line@),
                        None => None,
                    },
                }),
    {
        let mut sb = StringBuilder::new();
        loop
            invariant
                extends(old(k)@, k@),
                self.wf(),
                self.base() == old(self).base(),
                sb.wf(),
                !sb@.truncated,
                no_line_end(sb@.bytes),
                sb@.bytes.len() <= MAX_STRING_LEN,
                forall|rec: Seq<Event>|
                    extends(k@, rec) ==> #[trigger] line_received(
                        rec,
                        old(k)@.len() as int,
                        old(self).base(),
                        Seq::empty(),
                        spins as nat,
                    ) == line_received(
                        rec,
                        k@.len() as int,
                        old(self).base(),
                        sb@.bytes,
                        spins as nat,
                    ),
            decreases MAX_STRING_LEN - sb@.bytes.len(),
        {
            let c = match self.recv(spins, k) {
                Some(c) => c,
                None => {
                    return None;
                },
            };
            if c == 10 || c == 13 {
                return sb.to_str();
            }
            sb.add_u8(c);
            if sb.is_truncated() {
                return sb.to_str();
            }
        }
    }

    /// Sends a byte once the port can take it; gives up after `spins` looks at the port.
    pub fn send<S: Syscalls>(&mut self, char: u8, spins: usize, k: &mut Machine<S>) -> (r: bool)
        requires
            old(self).wf(),
        ensures
            final(self).base() == old(self).base(),
            final(self).wf(),
            extends(old(k)@, final(k)@),
            forall|rec: Seq<Event>|
                extends(final(k)@, rec) ==> #[trigger] byte_sent(
                    rec,
                    old(k)@.len() as int,
                    old(self).base(),
                    char,
                    spins as nat,
                ) == (Run { ok: true, at: final(k)@.len() as int, value: r }),
    {
        let mut left = spins;
        while left > 0
            invariant
                extends(old(k)@, k@),
                left <= spins,
                self.wf(),
                self.base() == old(self).base(),
                forall|rec: Seq<Event>|
                    extends(k@, rec) ==> #[trigger] polled(
                        rec,
                        old(k)@.len() as int,
                        (old(self).base() + 5) as u16,
                        STATUS_SEND_READY,
                        spins as nat,
                    ) == polled(
                        rec,
                        k@.len() as int,
                        (old(self).base() + 5) as u16,
                        STATUS_SEND_READY,
                        left as nat,
                    ),
            decreases left,
        {
            if self.send_ready(k) {
                self.r_data.set(char, k);
                return true;
            }
            left = left - 1;
        }
        false
    }

    /// The byte that is sent for `char`.
    pub fn char_byte(char: char) -> (r: u8)
        ensures
            r == byte_for(char),
    {
        if char as u32 > 255 {
            63
        } else {
            (char as u32) as u8
        }
    }

    pub fn send_char<S: Syscalls>(&mut self, char: char, spins: usize, k: &mut Machine<S>) -> (r: bool)
        requires
            old(self).wf(),
        ensures
            final(self).base() == old(self).base(),
            final(self).wf(),
            extends(old(k)@, final(k)@),
            forall|rec: Seq<Event>|
                extends(final(k)@, rec) ==> #[trigger] byte_sent(
                    rec,
                    old(k)@.len() as int,
                    old(self).base(),
                    byte_for(char),
                    spins as nat,
                ) == (Run { ok: true, at: final(k)@.len() as int, value: r }),
    {
        self.send(HardwareSerial::char_byte(char), spins, k)
    }

    /// Sends the characters of `str` one after the other, up to the first that cannot be
    /// sent. Returns whether all were sent.
    pub fn send_str<S: Syscalls>(&mut self, str: &str, spins: usize, k: &mut Machine<S>) -> (r: bool)
        requires
            old(self).wf(),
        ensures
            final(self).base() == old(self).base(),
            final(self).wf(),
            extends(old(k)@, final(k)@),
            forall|rec: Seq<Event>|
                extends(final(k)@, rec) ==> #[trigger] text_sent(
                    rec,
                    old(k)@.len() as int,
                    old(self).base(),
                    str@,
                    spins as nat,
                ) == (Run { ok: true, at: final(k)@.len() as int, value: r }),
    {
        let n = str.unicode_len();
        let mut i: usize = 0;
        assert(str@.skip(0) =~= str@);
        while i < n
            invariant
                extends(old(k)@, k@),
                i <= n,
                n == str@.len(),
                self.wf(),
                self.base() == old(self).base(),
                forall|rec: Seq<Event>|
                    extends(k@, rec) ==> #[trigger] text_sent(
                        rec,
                        old(k)@.len() as int,
                        old(self).base(),
                        str@,
                        spins as nat,
                    ) == text_sent(
                        rec,
                        k@.len() as int,
                        old(self).base(),
                        str@.skip(i as int),
                        spins as nat,
                    ),
            decreases n - i,
        {
            assert(str@.skip(i as int).skip(1) =~= str@.skip(i + 1));
            if !self.send_char(str.get_char(i), spins, k) {
                return false;
            }
            i = i + 1;
        }
        true
    }
}

} // verus!
