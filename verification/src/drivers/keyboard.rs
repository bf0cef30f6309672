//! The PS/2 controller and the devices on its two ports. Waiting for the controller is
//! bounded: each operation that waits takes the number of times that it may look at the
//! controller's status.
use vstd::prelude::*;
use crate::mantle::kio::extends;
use crate::kobject::steps::group_record;
use crate::drivers::ioport;
use crate::drivers::ioport::{got_at, polled, put_at, IOPort, Run};
use crate::mantle::kio::{Event, Machine, Syscalls};

verus! {

broadcast use group_record;

/// A byte can be read from the data port.
pub const STATUS_CAN_READ: u8 = 0x01;

/// A byte can be written to either port.
pub const STATUS_CAN_WRITE: u8 = 0x02;

pub const CONF_PORT1_INTERRUPT: u8 = 0x01;

pub const CONF_PORT2_INTERRUPT: u8 = 0x02;

/// The clock of the first port is switched off.
pub const CONF_PORT1_CLOCK: u8 = 0x10;

/// The clock of the second port is switched off.
pub const CONF_PORT2_CLOCK: u8 = 0x20;

pub const CONF_PORT1_TRANSLATE: u8 = 0x40;

/// The I/O port through which bytes go to and come from the controller and its devices.
pub const PORT_DATA: u16 = 0x60;

/// The I/O port that shows the controller's status and takes its commands.
pub const PORT_COMMAND: u16 = 0x64;

/// The record read at `at` as the command `cmd`: the controller is waited for, then the
/// command is written. The value says whether the controller took it in time.
pub open spec fn commanded(rec: Seq<Event>, at: int, cmd: u8, spins: nat) -> Run<bool> {
    let ready = polled(rec, at, PORT_COMMAND, STATUS_CAN_WRITE, spins);
    if ready.ok && ready.value {
        put_at(rec, ready.at, PORT_COMMAND, cmd).with(true)
    } else {
        ready
    }
}

/// The record read at `at` as the byte `data` for the data port: the controller is
/// waited for, then the byte is written. The value says whether it was taken in time.
pub open spec fn written(rec: Seq<Event>, at: int, data: u8, spins: nat) -> Run<bool> {
    let ready = polled(rec, at, PORT_COMMAND, STATUS_CAN_WRITE, spins);
    if ready.ok && ready.value {
        put_at(rec, ready.at, PORT_DATA, data).with(true)
    } else {
        ready
    }
}

/// The record read at `at` as waiting for a byte and reading it from the data port.
pub open spec fn heard(rec: Seq<Event>, at: int, spins: nat) -> Run<Option<u8>> {
    let ready = polled(rec, at, PORT_COMMAND, STATUS_CAN_READ, spins);
    if ready.ok && ready.value {
        let got = got_at(rec, ready.at, PORT_DATA);
        got.with(Some(got.value))
    } else {
        ready.with(None)
    }
}

/// The record read at `at` as one look at the status and, where a byte is there, the
/// reading of it.
pub open spec fn heard_now(rec: Seq<Event>, at: int) -> Run<Option<u8>> {
    let status = got_at(rec, at, PORT_COMMAND);
    if status.ok && status.value & STATUS_CAN_READ != 0 {
        let got = got_at(rec, status.at, PORT_DATA);
        got.with(Some(got.value))
    } else {
        status.with(None)
    }
}

/// The record read at `at` as the emptying of the controller's buffer: bytes are read
/// until none is there, and `spins` of them at most.
pub open spec fn flushed(rec: Seq<Event>, at: int, spins: nat) -> Run<()>
    decreases spins,
{
    if spins == 0 {
        Run { ok: true, at, value: () }
    } else {
        let byte = heard_now(rec, at);
        if !byte.ok || byte.value is None {
            byte.with(())
        } else {
            flushed(rec, byte.at, (spins - 1) as nat)
        }
    }
}

/// The record read at `at` as the reading of the configuration byte.
pub open spec fn conf_heard(rec: Seq<Event>, at: int, spins: nat) -> Run<Option<u8>> {
    let asked = commanded(rec, at, 0x20, spins);
    if asked.ok && asked.value {
        heard(rec, asked.at, spins)
    } else {
        asked.with(None)
    }
}

/// The record read at `at` as the writing of the configuration byte `conf`.
pub open spec fn conf_written(rec: Seq<Event>, at: int, conf: u8, spins: nat) -> Run<bool> {
    let asked = commanded(rec, at, 0x60, spins);
    if asked.ok && asked.value {
        written(rec, asked.at, conf, spins)
    } else {
        asked
    }
}

/// The record read at `at` as the byte `b` for the device on the second port: the
/// command `0xD4`, then the byte.
pub open spec fn written_second(rec: Seq<Event>, at: int, b: u8, spins: nat) -> Run<bool> {
    let asked = commanded(rec, at, 0xD4, spins);
    if asked.ok && asked.value {
        written(rec, asked.at, b, spins)
    } else {
        asked
    }
}

/// The record read at `at` as the switching on of a port: the port is enabled, the
/// configuration byte is read and written back with the port's interrupt. The value says
/// whether every step was taken and the port's clock runs.
pub open spec fn enabled(rec: Seq<Event>, at: int, second: bool, spins: nat) -> Run<bool> {
    let enable = if second {
        0xA8u8
    } else {
        0xAEu8
    };
    let interrupt = if second {
        CONF_PORT2_INTERRUPT
    } else {
        CONF_PORT1_INTERRUPT
    };
    let clock = if second {
        CONF_PORT2_CLOCK
    } else {
        CONF_PORT1_CLOCK
    };
    let on = commanded(rec, at, enable, spins);
    if !on.ok || !on.value {
        on.with(false)
    } else {
        let conf = conf_heard(rec, on.at, spins);
        if !conf.ok || conf.value is None {
            conf.with(false)
        } else {
            let set = conf_written(rec, conf.at, conf.value.unwrap() | interrupt, spins);
            if !set.ok || !set.value {
                set.with(false)
            } else {
                set.with(conf.value.unwrap() & clock == 0)
            }
        }
    }
}

/// The first part of setting the controller up: both ports are switched off and the
/// buffer is emptied. The value says whether both commands were taken.
pub open spec fn quieted(rec: Seq<Event>, at: int, spins: nat) -> Run<bool> {
    let first = commanded(rec, at, 0xAD, spins);
    if !first.ok || !first.value {
        first.with(false)
    } else {
        let second = commanded(rec, first.at, 0xA7, spins);
        if !second.ok || !second.value {
            second.with(false)
        } else {
            flushed(rec, second.at, spins).with(true)
        }
    }
}

/// The second part: the configuration byte is read and written back without the
/// interrupts and the mapping of scan codes, and the controller tests itself. The value
/// is the configuration byte that was written, if the controller answered `0x55` to the
/// test.
pub open spec fn self_tested(rec: Seq<Event>, at: int, spins: nat) -> Run<Option<u8>> {
    let conf = conf_heard(rec, at, spins);
    if !conf.ok || conf.value is None {
        conf.with(None)
    } else {
        let quiet = conf.value.unwrap() & !(CONF_PORT1_INTERRUPT | CONF_PORT2_INTERRUPT
            | CONF_PORT1_TRANSLATE);
        let set = conf_written(rec, conf.at, quiet, spins);
        if !set.ok || !set.value {
            set.with(None)
        } else {
            let test = commanded(rec, set.at, 0xAA, spins);
            if !test.ok || !test.value {
                test.with(None)
            } else {
                let answer = heard(rec, test.at, spins);
                answer.with(
                    if answer.value == Some(0x55u8) {
                        Some(quiet)
                    } else {
                        None
                    },
                )
            }
        }
    }
}

/// The third part: whether the controller has a second port. It has none if the clock
/// of the second port runs although the port was switched off. Else the port is
/// switched on, and it is there if its clock then runs; it is switched off again. The
/// value is `None` where the controller did not take a step in time.
pub open spec fn second_probed(rec: Seq<Event>, at: int, conf: u8, spins: nat) -> Run<
    Option<bool>,
> {
    if conf & CONF_PORT2_CLOCK == 0 {
        Run { ok: true, at, value: Some(false) }
    } else {
        let on = commanded(rec, at, 0xA8, spins);
        if !on.ok || !on.value {
            on.with(None)
        } else {
            let again = conf_heard(rec, on.at, spins);
            if !again.ok || again.value is None {
                again.with(None)
            } else {
                let off = commanded(rec, again.at, 0xA7, spins);
                off.with(
                    if off.value {
                        Some(again.value.unwrap() & CONF_PORT2_CLOCK == 0)
                    } else {
                        None
                    },
                )
            }
        }
    }
}

/// The fourth part: the first port is tested and, where the controller has two, the
/// second. A port passes if the controller answers zero. The value is `None` where the
/// controller did not take a command in time.
pub open spec fn ports_tested(rec: Seq<Event>, at: int, dual: bool, spins: nat) -> Run<
    Option<(bool, bool)>,
> {
    let ask = commanded(rec, at, 0xAB, spins);
    if !ask.ok || !ask.value {
        ask.with(None)
    } else {
        let first = heard(rec, ask.at, spins);
        if !first.ok || !dual {
            first.with(Some((first.value == Some(0u8), false)))
        } else {
            let again = commanded(rec, first.at, 0xA9, spins);
            if !again.ok || !again.value {
                again.with(None)
            } else {
                let second = heard(rec, again.at, spins);
                second.with(Some((first.value == Some(0u8), second.value == Some(0u8))))
            }
        }
    }
}

/// The last part: each port that passed its test is switched on. The value says which
/// ports work.
pub open spec fn ports_enabled(rec: Seq<Event>, at: int, passed: (bool, bool), spins: nat) -> Run<
    (bool, bool),
> {
    let first = if passed.0 {
        enabled(rec, at, false, spins)
    } else {
        Run { ok: true, at, value: false }
    };
    let second = if !first.ok {
        first
    } else if passed.1 {
        enabled(rec, first.at, true, spins)
    } else {
        first.with(false)
    };
    second.with((first.value, second.value))
}

/// The record read at `at` as the setting up of the controller, part by part. The value
/// says which ports work: none does where a part fails.
pub open spec fn set_up(rec: Seq<Event>, at: int, spins: nat) -> Run<(bool, bool)> {
    let quiet = quieted(rec, at, spins);
    if !quiet.ok || !quiet.value {
        quiet.with((false, false))
    } else {
        let conf = self_tested(rec, quiet.at, spins);
        if !conf.ok || conf.value is None {
            conf.with((false, false))
        } else {
            let dual = second_probed(rec, conf.at, conf.value.unwrap(), spins);
            if !dual.ok || dual.value is None {
                dual.with((false, false))
            } else {
                let passed = ports_tested(rec, dual.at, dual.value.unwrap(), spins);
                if !passed.ok || passed.value is None {
                    passed.with((false, false))
                } else {
                    ports_enabled(rec, passed.at, passed.value.unwrap(), spins)
                }
            }
        }
    }
}

/// The controller: its two I/O ports, and which of its two device ports work.
pub struct PS2Controller {
    port_data: IOPort,
    port_command: IOPort,
    works: (bool, bool),
}

impl PS2Controller {
    /// Which of the two device ports work.
    pub closed spec fn view(&self) -> (bool, bool) {
        self.works
    }

    /// The controller is at its usual I/O ports.
    pub closed spec fn wf(&self) -> bool {
        self.port_data@ == PORT_DATA && self.port_command@ == PORT_COMMAND
    }

    /// The controller at its usual I/O ports, set up: the record shows the setting up,
    /// and the ports work that came through it.
    pub fn new<S: Syscalls>(spins: usize, k: &mut Machine<S>) -> (r: PS2Controller)
        ensures
            r.wf(),
            extends(old(k)@, final(k)@),
            forall|rec: Seq<Event>|
                extends(final(k)@, rec) ==> #[trigger] set_up(
                    rec,
                    old(k)@.len() as int,
                    spins as nat,
                ) == (Run { ok: true, at: final(k)@.len() as int, value: r@ }),
    {
        let mut ctrl = PS2Controller {
            port_data: ioport::request_one(PORT_DATA),
            port_command: ioport::request_one(PORT_COMMAND),
            works: (false, false),
        };
        let _ = ctrl.initialize(spins, k);
        ctrl
    }

    fn status<S: Syscalls>(&self, k: &mut Machine<S>) -> (r: u8)
        requires
            self.wf(),
        ensures
            extends(old(k)@, final(k)@),
            forall|rec: Seq<Event>|
                extends(final(k)@, rec) ==> #[trigger] got_at(
                    rec,
                    old(k)@.len() as int,
                    PORT_COMMAND,
                ) == (Run { ok: true, at: final(k)@.len() as int, value: r }),
    {
        self.port_command.get(k)
    }

    fn can_read<S: Syscalls>(&self, k: &mut Machine<S>) -> (r: bool)
        requires
            self.wf(),
        ensures
            extends(old(k)@, final(k)@),
            r == (got_at(final(k)@, old(k)@.len() as int, PORT_COMMAND).value & STATUS_CAN_READ
                != 0),
            forall|rec: Seq<Event>|
                extends(final(k)@, rec) ==> #[trigger] got_at(
                    rec,
                    old(k)@.len() as int,
                    PORT_COMMAND,
                ) == (Run {
                    ok: true,
                    at: final(k)@.len() as int,
                    value: got_at(final(k)@, old(k)@.len() as int, PORT_COMMAND).value,
                }),
    {
        (self.status(k) & STATUS_CAN_READ) != 0
    }

    fn can_write<S: Syscalls>(&self, k: &mut Machine<S>) -> (r: bool)
        requires
            self.wf(),
        ensures
            extends(old(k)@, final(k)@),
            r == (got_at(final(k)@, old(k)@.len() as int, PORT_COMMAND).value & STATUS_CAN_WRITE
                != 0),
            forall|rec: Seq<Event>|
                extends(final(k)@, rec) ==> #[trigger] got_at(
                    rec,
                    old(k)@.len() as int,
                    PORT_COMMAND,
                ) == (Run {
                    ok: true,
                    at: final(k)@.len() as int,
                    value: got_at(final(k)@, old(k)@.len() as int, PORT_COMMAND).value,
                }),
    {
        (self.status(k) & STATUS_CAN_WRITE) != 0
    }

    /// Waits until a byte can be read; gives up after `spins` looks at the status.
    fn wait_until_readable<S: Syscalls>(&self, spins: usize, k: &mut Machine<S>) -> (r: bool)
        requires
            self.wf(),
        ensures
            extends(old(k)@, final(k)@),
            forall|rec: Seq<Event>|
                extends(final(k)@, rec) ==> #[trigger] polled(
                    rec,
                    old(k)@.len() as int,
                    PORT_COMMAND,
                    STATUS_CAN_READ,
                    spins as nat,
                ) == (Run { ok: true, at: final(k)@.len() as int, value: r }),
    {
        let mut left = spins;
        while left > 0
            invariant
                self.wf(),
                extends(old(k)@, k@),
                left <= spins,
                forall|rec: Seq<Event>|
                    extends(k@, rec) ==> #[trigger] polled(
                        rec,
                        old(k)@.len() as int,
                        PORT_COMMAND,
                        STATUS_CAN_READ,
                        spins as nat,
                    ) == polled(rec, k@.len() as int, PORT_COMMAND, STATUS_CAN_READ, left as nat),
            decreases left,
        {
            if self.can_read(k) {
                return true;
            }
            left = left - 1;
        }
        false
    }

    /// Waits until a byte can be written; gives up after `spins` looks at the status.
    fn wait_until_writable<S: Syscalls>(&self, spins: usize, k: &mut Machine<S>) -> (r: bool)
        requires
            self.wf(),
        ensures
            extends(old(k)@, final(k)@),
            forall|rec: Seq<Event>|
                extends(final(k)@, rec) ==> #[trigger] polled(
                    rec,
                    old(k)@.len() as int,
                    PORT_COMMAND,
                    STATUS_CAN_WRITE,
                    spins as nat,
                ) == (Run { ok: true, at: final(k)@.len() as int, value: r }),
    {
        let mut left = spins;
        while left > 0
            invariant
                self.wf(),
                extends(old(k)@, k@),
                left <= spins,
                forall|rec: Seq<Event>|
                    extends(k@, rec) ==> #[trigger] polled(
                        rec,
                        old(k)@.len() as int,
                        PORT_COMMAND,
                        STATUS_CAN_WRITE,
                        spins as nat,
                    ) == polled(rec, k@.len() as int, PORT_COMMAND, STATUS_CAN_WRITE, left as nat),
            decreases left,
        {
            if self.can_write(k) {
                return true;
            }
            left = left - 1;
        }
        false
    }

    /// Sends the command `cmd` to the controller. Returns whether it could be sent.
    fn command<S: Syscalls>(&mut self, cmd: u8, spins: usize, k: &mut Machine<S>) -> (r: bool)
        requires
            old(self).wf(),
        ensures
            final(self).wf(),
            final(self)@ == old(self)@,
            extends(old(k)@, final(k)@),
            forall|rec: Seq<Event>|
                extends(final(k)@, rec) ==> #[trigger] commanded(
                    rec,
                    old(k)@.len() as int,
                    cmd,
                    spins as nat,
                ) == (Run { ok: true, at: final(k)@.len() as int, value: r }),
    {
        if self.wait_until_writable(spins, k) {
            self.port_command.set(cmd, k);
            true
        } else {
            false
        }
    }

    /// Reads a byte from the data port, if one arrives in time.
    fn read<S: Syscalls>(&mut self, spins: usize, k: &mut Machine<S>) -> (r: Option<u8>)
        requires
            old(self).wf(),
        ensures
            final(self).wf(),
            final(self)@ == old(self)@,
            extends(old(k)@, final(k)@),
            forall|rec: Seq<Event>|
                extends(final(k)@, rec)
                    ==> #[trigger] heard(rec, old(k)@.len() as int, spins as nat)
                    == (Run { ok: true, at: final(k)@.len() as int, value: r }),
    {
        if self.wait_until_readable(spins, k) {
            Some(self.port_data.get(k))
        } else {
            None
        }
    }

    /// Reads a byte from the data port, if one is there.
    fn read_opt<S: Syscalls>(&mut self, k: &mut Machine<S>) -> (r: Option<u8>)
        requires
            old(self).wf(),
        ensures
            final(self).wf(),
            final(self)@ == old(self)@,
            extends(old(k)@, final(k)@),
            forall|rec: Seq<Event>|
                extends(final(k)@, rec) ==> #[trigger] heard_now(rec, old(k)@.len() as int)
                    == (Run {
                    ok: true,
                    at: final(k)@.len() as int,
                    value: r,
                }),
    {
        if self.can_read(k) {
            Some(self.port_data.get(k))
        } else {
            None
        }
    }

    /// Writes a byte to the data port. Returns whether it could be written.
    fn write<S: Syscalls>(&mut self, data: u8, spins: usize, k: &mut Machine<S>) -> (r: bool)
        requires
            old(self).wf(),
        ensures
            final(self).wf(),
            final(self)@ == old(self)@,
            extends(old(k)@, final(k)@),
            forall|rec: Seq<Event>|
                extends(final(k)@, rec) ==> #[trigger] written(
                    rec,
                    old(k)@.len() as int,
                    data,
                    spins as nat,
                ) == (Run { ok: true, at: final(k)@.len() as int, value: r }),
    {
        if self.wait_until_writable(spins, k) {
            self.port_data.set(data, k);
            true
        } else {
            false
        }
    }

    fn read_conf_byte<S: Syscalls>(&mut self, spins: usize, k: &mut Machine<S>) -> (r: Option<u8>)
        requires
            old(self).wf(),
        ensures
            final(self).wf(),
            final(self)@ == old(self)@,
            extends(old(k)@, final(k)@),
            forall|rec: Seq<Event>|
                extends(final(k)@, rec) ==> #[trigger] conf_heard(
                    rec,
                    old(k)@.len() as int,
                    spins as nat,
                ) == (Run { ok: true, at: final(k)@.len() as int, value: r }),
    {
        if self.command(0x20, spins, k) {
            self.read(spins, k)
        } else {
            None
        }
    }

    fn write_conf_byte<S: Syscalls>(&mut self, conf: u8, spins: usize, k: &mut Machine<S>) -> (r: bool)
        requires
            old(self).wf(),
        ensures
            final(self).wf(),
            final(self)@ == old(self)@,
            extends(old(k)@, final(k)@),
            forall|rec: Seq<Event>|
                extends(final(k)@, rec) ==> #[trigger] conf_written(
                    rec,
                    old(k)@.len() as int,
                    conf,
                    spins as nat,
                ) == (Run { ok: true, at: final(k)@.len() as int, value: r }),
    {
        if self.command(0x60, spins, k) {
            self.write(conf, spins, k)
        } else {
            false
        }
    }

    /// Switches a port on: enables it and its interrupt. Returns whether the controller
    /// took every step and the port's clock runs.
    fn enable_port<S: Syscalls>(&mut self, second: bool, spins: usize, k: &mut Machine<S>) -> (r: bool)
        requires
            old(self).wf(),
        ensures
            final(self).wf(),
            final(self)@ == old(self)@,
            extends(old(k)@, final(k)@),
            forall|rec: Seq<Event>|
                extends(final(k)@, rec) ==> #[trigger] enabled(
                    rec,
                    old(k)@.len() as int,
                    second,
                    spins as nat,
                ) == (Run { ok: true, at: final(k)@.len() as int, value: r }),
    {
        let (enable, interrupt, clock) = if second {
            (0xA8u8, CONF_PORT2_INTERRUPT, CONF_PORT2_CLOCK)
        } else {
            (0xAEu8, CONF_PORT1_INTERRUPT, CONF_PORT1_CLOCK)
        };
        if !self.command(enable, spins, k) {
            return false;
        }
        let conf = match self.read_conf_byte(spins, k) {
            Some(conf) => conf,
            None => {
                return false;
            },
        };
        if !self.write_conf_byte(conf | interrupt, spins, k) {
            return false;
        }
        (conf & clock) == 0
    }

    /// Switches both ports off and empties the buffer.
    fn quiet<S: Syscalls>(&mut self, spins: usize, k: &mut Machine<S>) -> (r: bool)
        requires
            old(self).wf(),
        ensures
            final(self).wf(),
            final(self)@ == old(self)@,
            extends(old(k)@, final(k)@),
            forall|rec: Seq<Event>|
                extends(final(k)@, rec)
                    ==> #[trigger] quieted(rec, old(k)@.len() as int, spins as nat)
                    == (Run { ok: true, at: final(k)@.len() as int, value: r }),
    {
        if !self.command(0xAD, spins, k) {
            return false;
        }
        if !self.command(0xA7, spins, k) {
            return false;
        }
        let mut left = spins;
        while left > 0
            invariant
                self.wf(),
                self@ == old(self)@,
                extends(old(k)@, k@),
                left <= spins,
                forall|rec: Seq<Event>|
                    extends(k@, rec) ==> #[trigger] quieted(rec, old(k)@.len() as int, spins as nat)
                        == flushed(rec, k@.len() as int, left as nat).with(true),
            decreases left,
        {
            if self.read_opt(k).is_none() {
                return true;
            }
            left = left - 1;
        }
        true
    }

    /// Takes the interrupts and the mapping of scan codes out of the configuration and
    /// has the controller test itself. Returns the configuration byte where the test
    /// passed.
    fn self_test<S: Syscalls>(&mut self, spins: usize, k: &mut Machine<S>) -> (r: Option<u8>)
        requires
            old(self).wf(),
        ensures
            final(self).wf(),
            final(self)@ == old(self)@,
            extends(old(k)@, final(k)@),
            forall|rec: Seq<Event>|
                extends(final(k)@, rec) ==> #[trigger] self_tested(
                    rec,
                    old(k)@.len() as int,
                    spins as nat,
                ) == (Run { ok: true, at: final(k)@.len() as int, value: r }),
    {
        let conf = match self.read_conf_byte(spins, k) {
            Some(conf) => conf,
            None => {
                return None;
            },
        };
        let conf = conf & !(CONF_PORT1_INTERRUPT | CONF_PORT2_INTERRUPT | CONF_PORT1_TRANSLATE);
        if !self.write_conf_byte(conf, spins, k) {
            return None;
        }
        if !self.command(0xAA, spins, k) {
            return None;
        }
        match self.read(spins, k) {
            Some(0x55) => Some(conf),
            _ => None,
        }
    }

    /// Finds out whether the controller has a second port.
    fn probe_second<S: Syscalls>(&mut self, conf: u8, spins: usize, k: &mut Machine<S>) -> (r: Option<
        bool,
    >)
        requires
            old(self).wf(),
        ensures
            final(self).wf(),
            final(self)@ == old(self)@,
            extends(old(k)@, final(k)@),
            forall|rec: Seq<Event>|
                extends(final(k)@, rec) ==> #[trigger] second_probed(
                    rec,
                    old(k)@.len() as int,
                    conf,
                    spins as nat,
                ) == (Run { ok: true, at: final(k)@.len() as int, value: r }),
    {
        if (conf & CONF_PORT2_CLOCK) == 0 {
            return Some(false);
        }
        if !self.command(0xA8, spins, k) {
            return None;
        }
        let again = match self.read_conf_byte(spins, k) {
            Some(again) => again,
            None => {
                return None;
            },
        };
        if !self.command(0xA7, spins, k) {
            return None;
        }
        Some((again & CONF_PORT2_CLOCK) == 0)
    }

    /// Tests the first port and, where there are two, the second.
    fn test_ports<S: Syscalls>(&mut self, dual: bool, spins: usize, k: &mut Machine<S>) -> (r: Option<
        (bool, bool),
    >)
        requires
            old(self).wf(),
        ensures
            final(self).wf(),
            final(self)@ == old(self)@,
            extends(old(k)@, final(k)@),
            forall|rec: Seq<Event>|
                extends(final(k)@, rec) ==> #[trigger] ports_tested(
                    rec,
                    old(k)@.len() as int,
                    dual,
                    spins as nat,
                ) == (Run { ok: true, at: final(k)@.len() as int, value: r }),
    {
        let mut works = (true, dual);
        if !self.command(0xAB, spins, k) {
            return None;
        }
        match self.read(spins, k) {
            Some(0x00) => {},
            _ => {
                works.0 = false;
            },
        }
        if dual {
            if !self.command(0xA9, spins, k) {
                return None;
            }
            match self.read(spins, k) {
                Some(0x00) => {},
                _ => {
                    works.1 = false;
                },
            }
        }
        Some(works)
    }

    /// Sets the controller up: both ports are switched off, the buffer is emptied,
    /// interrupts and the mapping of scan codes are switched off, the controller and its
    /// ports are tested, and the ports that work are switched on. Returns which ports
    /// work; none does where the controller fails a test or does not answer in time.
    fn initialize<S: Syscalls>(&mut self, spins: usize, k: &mut Machine<S>) -> (r: (bool, bool))
        requires
            old(self).wf(),
            old(self)@ == (false, false),
        ensures
            final(self).wf(),
            final(self)@ == r,
            extends(old(k)@, final(k)@),
            forall|rec: Seq<Event>|
                extends(final(k)@, rec)
                    ==> #[trigger] set_up(rec, old(k)@.len() as int, spins as nat)
                    == (Run { ok: true, at: final(k)@.len() as int, value: r }),
    {
        if !self.quiet(spins, k) {
            return (false, false);
        }
        let conf = match self.self_test(spins, k) {
            Some(conf) => conf,
            None => {
                return (false, false);
            },
        };
        let is_dual_channel = match self.probe_second(conf, spins, k) {
            Some(dual) => dual,
            None => {
                return (false, false);
            },
        };
        let mut works = match self.test_ports(is_dual_channel, spins, k) {
            Some(works) => works,
            None => {
                return (false, false);
            },
        };
        if works.0 {
            if !self.enable_port(false, spins, k) {
                works.0 = false;
            }
        }
        if works.1 {
            if !self.enable_port(true, spins, k) {
                works.1 = false;
            }
        }
        self.works = works;
        works
    }

    /// Writes a byte to the device on the first port, which must work.
    pub fn write_port_1<S: Syscalls>(&mut self, b: u8, spins: usize, k: &mut Machine<S>) -> (r: bool)
        requires
            old(self).wf(),
            old(self)@.0,
        ensures
            final(self).wf(),
            final(self)@ == old(self)@,
            extends(old(k)@, final(k)@),
            forall|rec: Seq<Event>|
                extends(final(k)@, rec)
                    ==> #[trigger] written(rec, old(k)@.len() as int, b, spins as nat)
                    == (Run { ok: true, at: final(k)@.len() as int, value: r }),
    {
        self.write(b, spins, k)
    }

    /// Writes a byte to the device on the second port, which must work.
    pub fn write_port_2<S: Syscalls>(&mut self, b: u8, spins: usize, k: &mut Machine<S>) -> (r: bool)
        requires
            old(self).wf(),
            old(self)@.1,
        ensures
            final(self).wf(),
            final(self)@ == old(self)@,
            extends(old(k)@, final(k)@),
            forall|rec: Seq<Event>|
                extends(final(k)@, rec) ==> #[trigger] written_second(
                    rec,
                    old(k)@.len() as int,
                    b,
                    spins as nat,
                ) == (Run { ok: true, at: final(k)@.len() as int, value: r }),
    {
        if self.command(0xD4, spins, k) {
            self.write(b, spins, k)
        } else {
            false
        }
    }

    /// What the callback of a port's interrupt does first: the byte that the device sent
    /// is read, if one is there.
    pub fn on_port_irq<S: Syscalls>(&mut self, k: &mut Machine<S>) -> (r: Option<u8>)
        requires
            old(self).wf(),
        ensures
            final(self).wf(),
            final(self)@ == old(self)@,
            extends(old(k)@, final(k)@),
            forall|rec: Seq<Event>|
                extends(final(k)@, rec) ==> #[trigger] heard_now(rec, old(k)@.len() as int)
                    == (Run {
                    ok: true,
                    at: final(k)@.len() as int,
                    value: r,
                }),
    {
        self.read_opt(k)
    }

    pub fn get_works(&self) -> (r: (bool, bool))
        ensures
            r == self@,
    {
        self.works
    }

    /// Has the controller reset the processor.
    pub fn cpu_reset<S: Syscalls>(&mut self, spins: usize, k: &mut Machine<S>) -> (r: bool)
        requires
            old(self).wf(),
        ensures
            final(self).wf(),
            final(self)@ == old(self)@,
            extends(old(k)@, final(k)@),
            forall|rec: Seq<Event>|
                extends(final(k)@, rec) ==> #[trigger] commanded(
                    rec,
                    old(k)@.len() as int,
                    0xFE,
                    spins as nat,
                ) == (Run { ok: true, at: final(k)@.len() as int, value: r }),
    {
        self.command(0xFE, spins, k)
    }
}

/// Makes the controller on first use.
pub fn get_and_init_controller<S: Syscalls>(
    controller: &mut Option<PS2Controller>,
    spins: usize,
    k: &mut Machine<S>,
)
    requires
        (*old(controller)) matches Some(c) ==> c.wf(),
    ensures
        (*final(controller)) matches Some(c) && c.wf(),
        *old(controller) is Some ==> *final(controller) == *old(controller) && final(k)@ == old(
            k,
        )@,
        extends(old(k)@, final(k)@),
        *old(controller) is None ==> forall|rec: Seq<Event>|
            extends(final(k)@, rec) ==> #[trigger] set_up(rec, old(k)@.len() as int, spins as nat)
                == (Run {
                ok: true,
                at: final(k)@.len() as int,
                value: (*final(controller)).unwrap()@,
            }),
{
    if controller.is_none() {
        *controller = Some(PS2Controller::new(spins, k));
    }
}

/// How far a device on a port has come on its way to being known as a keyboard.
#[derive(Debug, Copy, Clone, PartialEq, Eq, Structural)]
pub enum PS2HandlerState {
    PreReset,
    SentReset,
    SelfTestPassed,
    SentDisableScan,
    SentIdentify,
    PartialIdentify,
    IgnoredDevice,
    FailedInit,
    FoundKeyboard,
    GotEcho,
}

/// What a device's byte leads to: the next state, and the command to send to the
/// device, if any.
pub open spec fn step(state: PS2HandlerState, byte: u8) -> (PS2HandlerState, Option<u8>) {
    match state {
        PS2HandlerState::PreReset => (PS2HandlerState::PreReset, None),
        PS2HandlerState::SentReset => if byte == 0xAA {
            (PS2HandlerState::SelfTestPassed, None)
        } else {
            (PS2HandlerState::FailedInit, None)
        },
        PS2HandlerState::SelfTestPassed => if byte == 0xFA {
            (PS2HandlerState::SentDisableScan, Some(0xF5u8))
        } else {
            (PS2HandlerState::FailedInit, None)
        },
        PS2HandlerState::SentDisableScan => if byte == 0xFA {
            (PS2HandlerState::SentIdentify, Some(0xF2u8))
        } else {
            (PS2HandlerState::FailedInit, None)
        },
        PS2HandlerState::SentIdentify => if byte == 0xAB {
            (PS2HandlerState::PartialIdentify, None)
        } else {
            (PS2HandlerState::IgnoredDevice, None)
        },
        PS2HandlerState::PartialIdentify => if byte == 0x41 || byte == 0x83 || byte == 0xC1 {
            (PS2HandlerState::FoundKeyboard, Some(0xEEu8))
        } else {
            (PS2HandlerState::IgnoredDevice, None)
        },
        PS2HandlerState::FoundKeyboard => if byte == 0xEE {
            (PS2HandlerState::GotEcho, None)
        } else {
            (PS2HandlerState::FailedInit, None)
        },
        PS2HandlerState::FailedInit => (PS2HandlerState::FailedInit, None),
        PS2HandlerState::IgnoredDevice => (PS2HandlerState::IgnoredDevice, None),
        PS2HandlerState::GotEcho => (PS2HandlerState::GotEcho, None),
    }
}

/// The record read at `at` as the byte `command` for the device on the first or on the
/// second port.
pub open spec fn sent(rec: Seq<Event>, at: int, second: bool, command: u8, spins: nat) -> Run<
    bool,
> {
    if second {
        written_second(rec, at, command, spins)
    } else {
        written(rec, at, command, spins)
    }
}

/// The record read at `at` as what follows a byte from the device: the command that
/// `step` names for it, if any, is written to the device.
pub open spec fn answered(
    rec: Seq<Event>,
    at: int,
    second: bool,
    command: Option<u8>,
    spins: nat,
) -> Run<bool> {
    match command {
        Some(c) => sent(rec, at, second, c, spins),
        None => Run { ok: true, at, value: true },
    }
}

/// The device on one port of the controller. Its view is whether it is on the second
/// port, and its state.
pub struct PS2Handler {
    is_second: bool,
    state: PS2HandlerState,
}

impl PS2Handler {
    pub closed spec fn view(&self) -> (bool, PS2HandlerState) {
        (self.is_second, self.state)
    }

    pub fn create(is_second: bool) -> (r: PS2Handler)
        ensures
            r@ == (is_second, PS2HandlerState::PreReset),
    {
        PS2Handler { is_second, state: PS2HandlerState::PreReset }
    }

    pub fn state(&self) -> (r: PS2HandlerState)
        ensures
            r == self@.1,
    {
        self.state
    }

    /// Whether the device is on the second port.
    pub fn is_second(&self) -> (r: bool)
        ensures
            r == self@.0,
    {
        self.is_second
    }

    fn change_state(&mut self, state: PS2HandlerState)
        requires
            state != old(self)@.1,
        ensures
            final(self)@ == (old(self)@.0, state),
    {
        self.state = state;
    }

    /// The device sent `byte`: the state moves on as `step` says, and the command that
    /// `step` names is returned for sending.
    pub fn on_byte(&mut self, byte: u8) -> (r: Option<u8>)
        ensures
            final(self)@ == (old(self)@.0, step(old(self)@.1, byte).0),
            r == step(old(self)@.1, byte).1,
    {
        match self.state {
            PS2HandlerState::PreReset => None,
            PS2HandlerState::SentReset => {
                self.change_state(
                    if byte == 0xAA {
                        PS2HandlerState::SelfTestPassed
                    } else {
                        PS2HandlerState::FailedInit
                    },
                );
                None
            },
            PS2HandlerState::SelfTestPassed => {
                if byte == 0xFA {
                    self.change_state(PS2HandlerState::SentDisableScan);
                    Some(0xF5)
                } else {
                    self.change_state(PS2HandlerState::FailedInit);
                    None
                }
            },
            PS2HandlerState::SentDisableScan => {
                if byte == 0xFA {
                    self.change_state(PS2HandlerState::SentIdentify);
                    Some(0xF2)
                } else {
                    self.change_state(PS2HandlerState::FailedInit);
                    None
                }
            },
            PS2HandlerState::SentIdentify => {
                if byte == 0xAB {
                    self.change_state(PS2HandlerState::PartialIdentify)
                } else {
                    self.change_state(PS2HandlerState::IgnoredDevice)
                }
                None
            },
            PS2HandlerState::PartialIdentify => {
                if byte == 0x41 || byte == 0x83 || byte == 0xC1 {
                    self.change_state(PS2HandlerState::FoundKeyboard);
                    Some(0xEE)
                } else {
                    self.change_state(PS2HandlerState::IgnoredDevice);
                    None
                }
            },
            PS2HandlerState::FoundKeyboard => {
                if byte == 0xEE {
                    self.change_state(PS2HandlerState::GotEcho)
                } else {
                    self.change_state(PS2HandlerState::FailedInit)
                }
                None
            },
            PS2HandlerState::FailedInit => None,
            PS2HandlerState::IgnoredDevice => None,
            PS2HandlerState::GotEcho => None,
        }
    }

    /// The device sent `byte`: the state moves on as `step` says, and the command that
    /// `step` names is written to the device. Returns whether every write was taken.
    pub fn on_recv<S: Syscalls>(
        &mut self,
        byte: u8,
        ctrl: &mut PS2Controller,
        spins: usize,
        k: &mut Machine<S>,
    ) -> (r: bool)
        requires
            old(ctrl).wf(),
            old(self)@.0 ==> old(ctrl)@.1,
            !old(self)@.0 ==> old(ctrl)@.0,
        ensures
            final(ctrl).wf(),
            final(self)@ == (old(self)@.0, step(old(self)@.1, byte).0),
            final(ctrl)@ == old(ctrl)@,
            extends(old(k)@, final(k)@),
            forall|rec: Seq<Event>|
                extends(final(k)@, rec) ==> #[trigger] answered(
                    rec,
                    old(k)@.len() as int,
                    old(self)@.0,
                    step(old(self)@.1, byte).1,
                    spins as nat,
                ) == (Run { ok: true, at: final(k)@.len() as int, value: r }),
    {
        match self.on_byte(byte) {
            Some(command) => self.write(ctrl, command, spins, k),
            None => true,
        }
    }

    /// Writes a command to the device.
    fn write<S: Syscalls>(&mut self, ctrl: &mut PS2Controller, command: u8, spins: usize, k: &mut Machine<S>) -> (r:
        bool)
        requires
            old(ctrl).wf(),
            old(self)@.0 ==> old(ctrl)@.1,
            !old(self)@.0 ==> old(ctrl)@.0,
        ensures
            final(ctrl).wf(),
            final(self)@ == old(self)@,
            final(ctrl)@ == old(ctrl)@,
            extends(old(k)@, final(k)@),
            forall|rec: Seq<Event>|
                extends(final(k)@, rec) ==> #[trigger] sent(
                    rec,
                    old(k)@.len() as int,
                    old(self)@.0,
                    command,
                    spins as nat,
                ) == (Run { ok: true, at: final(k)@.len() as int, value: r }),
    {
        if self.is_second {
            ctrl.write_port_2(command, spins, k)
        } else {
            ctrl.write_port_1(command, spins, k)
        }
    }

    /// Writes a command to the device and moves to `state`.
    fn write_and_state<S: Syscalls>(
        &mut self,
        ctrl: &mut PS2Controller,
        command: u8,
        state: PS2HandlerState,
        spins: usize,
        k: &mut Machine<S>,
    ) -> (r: bool)
        requires
            old(ctrl).wf(),
            old(self)@.0 ==> old(ctrl)@.1,
            !old(self)@.0 ==> old(ctrl)@.0,
            state != old(self)@.1,
        ensures
            final(ctrl).wf(),
            final(self)@ == (old(self)@.0, state),
            final(ctrl)@ == old(ctrl)@,
            extends(old(k)@, final(k)@),
            forall|rec: Seq<Event>|
                extends(final(k)@, rec) ==> #[trigger] sent(
                    rec,
                    old(k)@.len() as int,
                    old(self)@.0,
                    command,
                    spins as nat,
                ) == (Run { ok: true, at: final(k)@.len() as int, value: r }),
    {
        let r = self.write(ctrl, command, spins, k);
        self.change_state(state);
        r
    }

    /// Starts the device: it is told to reset itself. Returns whether the controller
    /// took the command.
    pub fn init<S: Syscalls>(&mut self, ctrl: &mut PS2Controller, spins: usize, k: &mut Machine<S>) -> (r: bool)
        requires
            old(ctrl).wf(),
            old(self)@.0 ==> old(ctrl)@.1,
            !old(self)@.0 ==> old(ctrl)@.0,
            old(self)@.1 == PS2HandlerState::PreReset,
        ensures
            final(ctrl).wf(),
            final(self)@ == (old(self)@.0, PS2HandlerState::SentReset),
            final(ctrl)@ == old(ctrl)@,
            extends(old(k)@, final(k)@),
            forall|rec: Seq<Event>|
                extends(final(k)@, rec) ==> #[trigger] sent(
                    rec,
                    old(k)@.len() as int,
                    old(self)@.0,
                    0xFF,
                    spins as nat,
                ) == (Run { ok: true, at: final(k)@.len() as int, value: r }),
    {
        self.write_and_state(ctrl, 0xFF, PS2HandlerState::SentReset, spins, k)
    }
}

/// The devices on the two ports, as far as the ports work.
pub struct GlobalPS2 {
    pub inited: bool,
    pub first: Option<PS2Handler>,
    pub second: Option<PS2Handler>,
}

/// The record read at `at` as the start of the devices: the device on each port that
/// works is told to reset itself, the first port's first.
pub open spec fn started(rec: Seq<Event>, at: int, works: (bool, bool), spins: nat) -> Run<()> {
    let first = if works.0 {
        sent(rec, at, false, 0xFF, spins)
    } else {
        Run { ok: true, at, value: false }
    };
    let second = if !first.ok {
        first
    } else if works.1 {
        sent(rec, first.at, true, 0xFF, spins)
    } else {
        first
    };
    second.with(())
}

/// Starts a device on each port of the controller that works.
pub fn init<S: Syscalls>(ctrl: &mut PS2Controller, spins: usize, k: &mut Machine<S>) -> (r: GlobalPS2)
    requires
        old(ctrl).wf(),
    ensures
        final(ctrl).wf(),
        final(ctrl)@ == old(ctrl)@,
        r.inited,
        r.first is Some == old(ctrl)@.0,
        r.second is Some == old(ctrl)@.1,
        r.first matches Some(h) ==> h@ == (false, PS2HandlerState::SentReset),
        r.second matches Some(h) ==> h@ == (true, PS2HandlerState::SentReset),
        extends(old(k)@, final(k)@),
        forall|rec: Seq<Event>|
            extends(final(k)@, rec) ==> #[trigger] started(
                rec,
                old(k)@.len() as int,
                old(ctrl)@,
                spins as nat,
            ) == (Run { ok: true, at: final(k)@.len() as int, value: () }),
{
    let works = ctrl.get_works();
    let mut state = GlobalPS2 { inited: true, first: None, second: None };
    if works.0 {
        let mut handler = PS2Handler::create(false);
        let _ = handler.init(ctrl, spins, k);
        state.first = Some(handler);
    }
    if works.1 {
        let mut handler = PS2Handler::create(true);
        let _ = handler.init(ctrl, spins, k);
        state.second = Some(handler);
    }
    state
}

} // verus!
