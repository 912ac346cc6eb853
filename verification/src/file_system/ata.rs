use vstd::prelude::*;
use super::io::{PortOp, PortRW, PortReader, PortWriter};
use crate::utils::{le_u16, le_u32, read_le_u16, read_le_u32};
use super::SECTOR_SIZE;

verus! {

/// Base addresses have their two low bits cleared before ports are counted
/// from them.
pub const PORT_MASK: u16 = 0xFFFC;

/// Status samples after which a wait is reported as long.
pub const TIMEOUT: usize = 1000;

/// Flags of the status register.
pub const STATUS_BUSY: u8 = 0x80;
pub const STATUS_DRIVE_READY: u8 = 0x40;
pub const STATUS_DRIVE_WRITE_FAULT: u8 = 0x20;
pub const STATUS_DRIVE_SEEK_COMPLETE: u8 = 0x10;
pub const STATUS_DATA_REQUEST_READY: u8 = 0x08;
pub const STATUS_CORRECTED_DATA: u8 = 0x04;
pub const STATUS_INDEX: u8 = 0x02;
pub const STATUS_ERROR: u8 = 0x01;

/// What the status register held at one sample.
#[derive(Clone, Copy, Debug, PartialEq, Eq, Structural)]
pub struct ATAStatus {
    pub bits: u8,
}

impl ATAStatus {
    /// The flags of `bits`; every bit of the register is one.
    pub fn from_bits_truncate(bits: u8) -> (status: Self)
        ensures
            status.bits == bits,
    {
        ATAStatus { bits }
    }

    /// Whether a flag of `mask` is set.
    pub open spec fn spec_intersects(&self, mask: u8) -> bool {
        self.bits & mask != 0
    }

    /// Whether a flag of `mask` is set.
    #[verifier::when_used_as_spec(spec_intersects)]
    pub fn intersects(&self, mask: u8) -> (shared: bool)
        ensures
            shared == self.spec_intersects(mask),
    {
        self.bits & mask != 0
    }

    /// Whether no flag is set.
    pub open spec fn spec_is_empty(&self) -> bool {
        self.bits == 0
    }

    /// Whether no flag is set.
    #[verifier::when_used_as_spec(spec_is_empty)]
    pub fn is_empty(&self) -> (empty: bool)
        ensures
            empty == self.spec_is_empty(),
    {
        self.bits == 0
    }

    /// The device reports a fault: the pending operation is lost.
    pub open spec fn faulted(&self) -> bool {
        self.spec_intersects(STATUS_ERROR | STATUS_DRIVE_WRITE_FAULT)
    }

    /// The device is at work and its other registers mean nothing.
    pub open spec fn busy(&self) -> bool {
        self.spec_intersects(STATUS_BUSY)
    }

    /// The device has a data word to hand over, or waits for one.
    pub open spec fn data_request(&self) -> bool {
        self.spec_intersects(STATUS_DATA_REQUEST_READY)
    }
}

/// Which of the two drives of a controller is meant.
#[derive(Copy, Clone, Debug, PartialEq, Eq, Structural)]
pub enum BusDrive {
    Master,
    Slave,
}

impl BusDrive {
    /// The drive's bit in the drive-select register.
    pub open spec fn spec_select_bit(&self) -> u8 {
        match *self {
            BusDrive::Master => 0x00,
            BusDrive::Slave => 0x10,
        }
    }

    /// The drive's bit in the drive-select register.
    pub fn select_bit(&self) -> (bit: u8)
        ensures
            bit == self.spec_select_bit(),
    {
        match *self {
            BusDrive::Master => 0x00,
            BusDrive::Slave => 0x10,
        }
    }
}

/// Commands of the controller.
#[derive(Copy, Clone, Debug, PartialEq, Eq, Structural)]
pub enum ATACommand {
    Read,
    Write,
    CacheFlush,
    Identify,
}

impl ATACommand {
    /// The byte that the command register takes for the command.
    pub open spec fn spec_code(&self) -> u8 {
        match *self {
            ATACommand::Read => 0x20,
            ATACommand::Write => 0x30,
            ATACommand::CacheFlush => 0xE7,
            ATACommand::Identify => 0xEC,
        }
    }

    /// The byte that the command register takes for the command.
    pub fn code(&self) -> (code: u8)
        ensures
            code == self.spec_code(),
    {
        match *self {
            ATACommand::Read => 0x20,
            ATACommand::Write => 0x30,
            ATACommand::CacheFlush => 0xE7,
            ATACommand::Identify => 0xEC,
        }
    }
}

/// The ports of one controller.
#[derive(Debug, Clone, Copy)]
pub struct ATABus {
    pub data: PortRW<u16>,
    pub error: PortReader<u8>,
    pub sector_count: PortRW<u8>,
    pub lba_low: PortRW<u8>,
    pub lba_mid: PortRW<u8>,
    pub lba_high: PortRW<u8>,
    pub drive_select: PortRW<u8>,
    pub command: PortWriter<u8>,
    pub status: PortReader<u8>,
    pub alt_status: PortReader<u8>,
    pub control: PortWriter<u8>,
}

impl ATABus {
    /// The ports count up from the two bases as the controller lays them
    /// out: data, error, sector count, the three address bytes, drive select
    /// and command or status from the first; alternate status or control
    /// two above the second.
    pub open spec fn laid_out(&self, data_bar: u16, ctrl_bar: u16) -> bool {
        let data_base = data_bar & PORT_MASK;
        let ctrl_base = ctrl_bar & PORT_MASK;
        &&& self.data.port == data_base
        &&& self.error.port == data_base + 1
        &&& self.sector_count.port == data_base + 2
        &&& self.lba_low.port == data_base + 3
        &&& self.lba_mid.port == data_base + 4
        &&& self.lba_high.port == data_base + 5
        &&& self.drive_select.port == data_base + 6
        &&& self.command.port == data_base + 7
        &&& self.status.port == data_base + 7
        &&& self.alt_status.port == ctrl_base + 2
        &&& self.control.port == ctrl_base + 2
    }

    /// The controller whose registers start at `data_bar` and whose control
    /// block starts at `ctrl_bar`.
    pub fn new(data_bar: u16, ctrl_bar: u16) -> (bus: Self)
        requires
            data_bar < 0xFFFC,
        ensures
            bus.laid_out(data_bar, ctrl_bar),
    {
        let data_base: u16 = data_bar & PORT_MASK;
        let ctrl_base: u16 = ctrl_bar & PORT_MASK;
        assert(data_base <= 0xFFF8) by (bit_vector)
            requires
                data_base == data_bar & 0xFFFC,
                data_bar < 0xFFFC,
        ;
        assert(ctrl_base <= 0xFFFC) by (bit_vector)
            requires
                ctrl_base == ctrl_bar & 0xFFFC,
        ;
        ATABus {
            data: PortRW::new(data_base),
            error: PortReader::new(data_base + 1),
            sector_count: PortRW::new(data_base + 2),
            lba_low: PortRW::new(data_base + 3),
            lba_mid: PortRW::new(data_base + 4),
            lba_high: PortRW::new(data_base + 5),
            drive_select: PortRW::new(data_base + 6),
            command: PortWriter::new(data_base + 7),
            status: PortReader::new(data_base + 7),
            control: PortWriter::new(ctrl_base + 2),
            alt_status: PortReader::new(ctrl_base + 2),
        }
    }
}

/// Why a transfer was given up.
#[derive(Copy, Clone, Debug, PartialEq, Eq, Structural)]
pub enum AtaError {
    /// The status register showed the error flag or the write-fault flag.
    DeviceFault,
    /// The status register read as zero right after the drive was selected.
    NoDrive,
    /// The drive answered the identify command as a device of another class.
    NotAta,
}

/// What a status sample means to the wait that took it.
#[derive(Copy, Clone, Debug, PartialEq, Eq, Structural)]
pub enum Verdict {
    /// The device reports a fault.
    Failed,
    /// The wait is over.
    Proceed,
    /// The status has to be sampled again.
    Again,
}

/// A verdict, and whether the wait has been going on for long enough to be
/// worth a diagnostic.
#[derive(Copy, Clone, Debug, PartialEq, Eq, Structural)]
pub struct Poll {
    pub verdict: Verdict,
    pub stalled: bool,
}

/// The low byte of a word.
pub open spec fn low_byte(word: u16) -> u8 {
    (word % 0x100) as u8
}

/// The high byte of a word.
pub open spec fn high_byte(word: u16) -> u8 {
    (word / 0x100) as u8
}

/// The two bytes of a word, the low one first.
fn split_word(word: u16) -> (bytes: (u8, u8))
    ensures
        bytes.0 == low_byte(word),
        bytes.1 == high_byte(word),
{
    assert(word & 0xff == word % 0x100) by (bit_vector);
    assert(word >> 8 == word / 0x100) by (bit_vector);
    ((word & 0xff) as u8, (word >> 8) as u8)
}

impl ATABus {
    /// The verdict of a wait for the device to stop asking for data, on its
    /// sample number `polls`: a fault ends it, a device that still asks for
    /// data is sampled again, and the sample at the bound is reported if
    /// the device is busy then.
    pub open spec fn spec_wait_for_done(status: ATAStatus, polls: usize) -> Poll {
        if status.faulted() {
            Poll { verdict: Verdict::Failed, stalled: false }
        } else {
            Poll {
                verdict: if status.data_request() {
                    Verdict::Again
                } else {
                    Verdict::Proceed
                },
                stalled: status.busy() && polls == TIMEOUT,
            }
        }
    }

    /// Judges sample number `polls` of a wait for the device to stop asking
    /// for data.
    pub fn wait_for_done(status: ATAStatus, polls: usize) -> (poll: Poll)
        ensures
            poll == Self::spec_wait_for_done(status, polls),
    {
        if status.intersects(STATUS_ERROR | STATUS_DRIVE_WRITE_FAULT) {
            return Poll { verdict: Verdict::Failed, stalled: false };
        }
        let stalled = status.intersects(STATUS_BUSY) && polls == TIMEOUT;
        if !status.intersects(STATUS_DATA_REQUEST_READY) {
            Poll { verdict: Verdict::Proceed, stalled }
        } else {
            Poll { verdict: Verdict::Again, stalled }
        }
    }

    /// The verdict of a wait for a data word, on its sample number `polls`:
    /// a fault ends it, a busy device is sampled again and reported at every
    /// multiple of the bound, and a device that is not busy is sampled again
    /// until it asks for data.
    pub open spec fn spec_wait_for_ready(status: ATAStatus, polls: usize) -> Poll {
        if status.faulted() {
            Poll { verdict: Verdict::Failed, stalled: false }
        } else if status.busy() {
            Poll { verdict: Verdict::Again, stalled: polls % TIMEOUT == 0 }
        } else if status.data_request() {
            Poll { verdict: Verdict::Proceed, stalled: false }
        } else {
            Poll { verdict: Verdict::Again, stalled: false }
        }
    }

    /// Judges sample number `polls` of a wait for a data word.
    pub fn wait_for_ready(status: ATAStatus, polls: usize) -> (poll: Poll)
        ensures
            poll == Self::spec_wait_for_ready(status, polls),
    {
        if status.intersects(STATUS_ERROR | STATUS_DRIVE_WRITE_FAULT) {
            return Poll { verdict: Verdict::Failed, stalled: false };
        }
        if status.intersects(STATUS_BUSY) {
            return Poll { verdict: Verdict::Again, stalled: polls % TIMEOUT == 0 };
        }
        if status.intersects(STATUS_DATA_REQUEST_READY) {
            return Poll { verdict: Verdict::Proceed, stalled: false };
        }
        Poll { verdict: Verdict::Again, stalled: false }
    }

    /// Port read number `reads` of a status sample: four reads of the
    /// alternate status register, whose answers are thrown away, give the
    /// device time to settle; the fifth reads the status register.
    pub open spec fn spec_status(&self, reads: u8) -> PortOp {
        if reads < 4 {
            PortOp::ReadByte(self.alt_status.port)
        } else {
            PortOp::ReadByte(self.status.port)
        }
    }

    /// Names port read number `reads` of a status sample.
    pub fn status(&self, reads: u8) -> (op: PortOp)
        ensures
            op == self.spec_status(reads),
    {
        if reads < 4 {
            self.alt_status.read()
        } else {
            self.status.read()
        }
    }
}

/// What a transfer is for.
#[derive(Copy, Clone, Debug, PartialEq, Eq, Structural)]
pub enum TransferKind {
    /// Sectors are read.
    Read,
    /// The drive's identification sector is read.
    Identify,
}

/// What a status sample is taken for.
#[derive(Copy, Clone, Debug, PartialEq, Eq, Structural)]
pub enum Wait {
    /// Before the command: the device must not ask for data any more.
    Idle,
    /// Right after the identify command: a status of zero means no drive.
    Present,
    /// After the identify command: while the device is busy, its address
    /// registers tell whether it is of the expected class.
    NotBusy,
    /// Before a sector: the device must ask for data.
    Ready,
    /// After the last sector: the device must not ask for data any more.
    End,
}

/// How far a transfer has come. Each phase but the first and the last
/// waits for the answer to the port access that was named last.
#[derive(Copy, Clone, Debug, PartialEq, Eq)]
pub enum Phase {
    /// Nothing has been named yet.
    Start,
    /// Port read number `reads` of a status sample has been named; `polls`
    /// samples of this wait have been judged.
    Sampling { wait: Wait, reads: u8, polls: usize },
    /// `issued` of the six register writes of the command have been named.
    Commanding { issued: u8 },
    /// An address register has been asked for the device's signature: the
    /// middle one, or the high one.
    Signature { high: bool },
    /// Data word number `word` of the current sector has been asked for.
    Transferring { word: usize },
    /// The transfer is over.
    Finished { outcome: Result<usize, AtaError> },
}

/// What the caller does next.
#[derive(Copy, Clone, Debug, PartialEq, Eq)]
pub enum Action {
    /// Carry out the port access, and hand its answer to the next step.
    Io(PortOp),
    /// Nothing: the transfer is over, with this many sectors or this error.
    Done(Result<usize, AtaError>),
}

/// One step of a transfer.
#[derive(Copy, Clone, Debug, PartialEq, Eq)]
pub struct Step {
    pub action: Action,
    /// The device has kept the transfer waiting for long: worth a
    /// diagnostic, and no reason to stop.
    pub stalled: bool,
}

/// A transfer between a drive and a buffer, as a machine that names one
/// port access at a time.
#[derive(Copy, Clone, Debug)]
pub struct Transfer {
    pub bus: ATABus,
    pub kind: TransferKind,
    pub which: BusDrive,
    pub lba_start: usize,
    pub sector_count: usize,
    pub phase: Phase,
    /// Sectors that the buffer holds in full.
    pub sector: usize,
}

/// The byte for the drive-select register: the addressing mode, the
/// drive's bit, and for a read the top four of the 28 address bits.
pub open spec fn select_byte(kind: TransferKind, which: BusDrive, lba: usize) -> u8 {
    match kind {
        TransferKind::Read => 0xE0u8 | which.spec_select_bit() | ((lba / 0x100_0000) % 0x10) as u8,
        TransferKind::Identify => 0xA0u8 | which.spec_select_bit(),
    }
}

impl Transfer {
    /// Bytes that the buffer of the transfer must have.
    pub open spec fn buffer_need(&self) -> int {
        SECTOR_SIZE * self.sector_count
    }

    /// The counters are within their ranges.
    pub open spec fn wf(&self) -> bool {
        &&& SECTOR_SIZE * self.sector_count <= usize::MAX
        &&& self.sector <= self.sector_count
        &&& self.kind is Identify ==> self.sector_count == 1 && self.lba_start == 0
        &&& match self.phase {
            Phase::Start => self.sector == 0,
            Phase::Sampling { wait, reads, polls } => {
                &&& 1 <= reads <= 5
                &&& polls <= TIMEOUT + 1
                &&& wait is Idle ==> self.sector == 0 && self.sector_count > 0
                &&& wait is Ready ==> self.sector < self.sector_count
                &&& wait is End ==> self.sector == self.sector_count
                &&& (wait is Present || wait is NotBusy) ==> self.kind is Identify && self.sector
                    == 0
            },
            Phase::Commanding { issued } => {
                &&& 1 <= issued <= 6
                &&& self.sector == 0
                &&& self.sector_count > 0
            },
            Phase::Signature { high } => self.kind is Identify && self.sector == 0,
            Phase::Transferring { word } => word < 256 && self.sector < self.sector_count,
            Phase::Finished { outcome } => true,
        }
    }

    /// Register write number `index` of the command: drive select, sector
    /// count, the address bytes from the high one down, and the command.
    pub open spec fn spec_command_write(&self, index: u8) -> PortOp {
        let read = self.kind is Read;
        if index == 0 {
            PortOp::WriteByte(
                self.bus.drive_select.port,
                select_byte(self.kind, self.which, self.lba_start),
            )
        } else if index == 1 {
            PortOp::WriteByte(
                self.bus.sector_count.port,
                if read {
                    (self.sector_count % 0x100) as u8
                } else {
                    0
                },
            )
        } else if index == 2 {
            PortOp::WriteByte(
                self.bus.lba_high.port,
                if read {
                    (self.lba_start / 0x1_0000 % 0x100) as u8
                } else {
                    0
                },
            )
        } else if index == 3 {
            PortOp::WriteByte(
                self.bus.lba_mid.port,
                if read {
                    (self.lba_start / 0x100 % 0x100) as u8
                } else {
                    0
                },
            )
        } else if index == 4 {
            PortOp::WriteByte(
                self.bus.lba_low.port,
                if read {
                    (self.lba_start % 0x100) as u8
                } else {
                    0
                },
            )
        } else {
            PortOp::WriteByte(
                self.bus.command.port,
                if read {
                    ATACommand::Read.spec_code()
                } else {
                    ATACommand::Identify.spec_code()
                },
            )
        }
    }

    /// The transfer with its phase changed.
    pub open spec fn at(&self, phase: Phase) -> Transfer {
        Transfer { phase, ..*self }
    }

    /// The first port read of a status sample for `wait`.
    pub open spec fn spec_sample(&self, wait: Wait, polls: usize, stalled: bool) -> (
        Transfer,
        Step,
    ) {
        (
            self.at(Phase::Sampling { wait, reads: 1, polls }),
            Step { action: Action::Io(self.bus.spec_status(0)), stalled },
        )
    }

    /// The end of the transfer.
    pub open spec fn spec_finish(&self, outcome: Result<usize, AtaError>, stalled: bool) -> (
        Transfer,
        Step,
    ) {
        (self.at(Phase::Finished { outcome }), Step { action: Action::Done(outcome), stalled })
    }

    /// What follows a status sample that showed `status`.
    pub open spec fn spec_judge(&self, wait: Wait, polls: usize, status: ATAStatus) -> (
        Transfer,
        Step,
    ) {
        match wait {
            Wait::Idle | Wait::End => {
                let taken = if polls <= TIMEOUT {
                    (polls + 1) as usize
                } else {
                    polls
                };
                let poll = ATABus::spec_wait_for_done(status, taken);
                match poll.verdict {
                    Verdict::Failed => self.spec_finish(Err(AtaError::DeviceFault), false),
                    Verdict::Again => self.spec_sample(wait, taken, poll.stalled),
                    Verdict::Proceed => if wait is Idle {
                        (
                            self.at(Phase::Commanding { issued: 1 }),
                            Step {
                                action: Action::Io(self.spec_command_write(0)),
                                stalled: poll.stalled,
                            },
                        )
                    } else {
                        self.spec_finish(Ok(self.sector_count), poll.stalled)
                    },
                }
            },
            Wait::Ready => {
                let taken = ((polls + 1) % (TIMEOUT as int)) as usize;
                let poll = ATABus::spec_wait_for_ready(status, taken);
                match poll.verdict {
                    Verdict::Failed => self.spec_finish(Err(AtaError::DeviceFault), false),
                    Verdict::Again => self.spec_sample(wait, taken, poll.stalled),
                    Verdict::Proceed => (
                        self.at(Phase::Transferring { word: 0 }),
                        Step {
                            action: Action::Io(PortOp::ReadWord(self.bus.data.port)),
                            stalled: false,
                        },
                    ),
                }
            },
            Wait::Present => if status.spec_is_empty() {
                self.spec_finish(Err(AtaError::NoDrive), false)
            } else {
                self.spec_sample(Wait::NotBusy, 0, false)
            },
            Wait::NotBusy => if status.busy() {
                (
                    self.at(Phase::Signature { high: false }),
                    Step {
                        action: Action::Io(PortOp::ReadByte(self.bus.lba_mid.port)),
                        stalled: false,
                    },
                )
            } else {
                self.spec_sample(Wait::Ready, 0, false)
            },
        }
    }

    /// The transfer after the answer `input` to the port access that it
    /// named last, and what it names next. The answer to a write, and the
    /// first step's, is not looked at.
    pub open spec fn spec_step(&self, input: u16) -> (Transfer, Step) {
        match self.phase {
            Phase::Start => if self.sector_count == 0 {
                self.spec_finish(Ok(0), false)
            } else {
                self.spec_sample(Wait::Idle, 0, false)
            },
            Phase::Sampling { wait, reads, polls } => if reads < 5 {
                (
                    self.at(Phase::Sampling { wait, reads: (reads + 1) as u8, polls }),
                    Step { action: Action::Io(self.bus.spec_status(reads)), stalled: false },
                )
            } else {
                self.spec_judge(wait, polls, ATAStatus { bits: low_byte(input) })
            },
            Phase::Commanding { issued } => if issued < 6 {
                (
                    self.at(Phase::Commanding { issued: (issued + 1) as u8 }),
                    Step { action: Action::Io(self.spec_command_write(issued)), stalled: false },
                )
            } else if self.kind is Read {
                self.spec_sample(Wait::Ready, 0, false)
            } else {
                self.spec_sample(Wait::Present, 0, false)
            },
            Phase::Signature { high } => if low_byte(input) != 0 {
                self.spec_finish(Err(AtaError::NotAta), false)
            } else if !high {
                (
                    self.at(Phase::Signature { high: true }),
                    Step {
                        action: Action::Io(PortOp::ReadByte(self.bus.lba_high.port)),
                        stalled: false,
                    },
                )
            } else {
                self.spec_sample(Wait::NotBusy, 0, false)
            },
            Phase::Transferring { word } => if word + 1 < 256 {
                (
                    self.at(Phase::Transferring { word: (word + 1) as usize }),
                    Step {
                        action: Action::Io(PortOp::ReadWord(self.bus.data.port)),
                        stalled: false,
                    },
                )
            } else {
                let filled = Transfer { sector: (self.sector + 1) as usize, ..*self };
                if filled.sector < filled.sector_count {
                    filled.spec_sample(Wait::Ready, 0, false)
                } else {
                    filled.spec_sample(Wait::End, 0, false)
                }
            },
            Phase::Finished { outcome } => (
                *self,
                Step { action: Action::Done(outcome), stalled: false },
            ),
        }
    }

    /// The buffer after the answer `input`: a data word goes to its place,
    /// low byte first; any other answer leaves the buffer as it is.
    pub open spec fn spec_store(&self, buffer: Seq<u8>, input: u16) -> Seq<u8> {
        match self.phase {
            Phase::Transferring { word } => {
                let at = SECTOR_SIZE * self.sector + 2 * word;
                buffer.update(at, low_byte(input)).update(at + 1, high_byte(input))
            },
            _ => buffer,
        }
    }
}

impl ATABus {
    /// A read of `sector_count` sectors of drive `which`, from sector
    /// `lba_start` on, before its first step. Of the address only the low
    /// 28 bits reach the device, and of the count only the low 8.
    pub fn read(&self, which: BusDrive, lba_start: usize, sector_count: usize) -> (transfer:
        Transfer)
        requires
            SECTOR_SIZE * sector_count <= usize::MAX,
        ensures
            transfer == (Transfer {
                bus: *self,
                kind: TransferKind::Read,
                which,
                lba_start,
                sector_count,
                phase: Phase::Start,
                sector: 0,
            }),
            transfer.wf(),
    {
        Transfer {
            bus: *self,
            kind: TransferKind::Read,
            which,
            lba_start,
            sector_count,
            phase: Phase::Start,
            sector: 0,
        }
    }

    /// A read of the identification sector of drive `which`, before its
    /// first step.
    pub fn identify(&self, which: BusDrive) -> (transfer: Transfer)
        ensures
            transfer == (Transfer {
                bus: *self,
                kind: TransferKind::Identify,
                which,
                lba_start: 0,
                sector_count: 1,
                phase: Phase::Start,
                sector: 0,
            }),
            transfer.wf(),
    {
        Transfer {
            bus: *self,
            kind: TransferKind::Identify,
            which,
            lba_start: 0,
            sector_count: 1,
            phase: Phase::Start,
            sector: 0,
        }
    }
}

impl Transfer {
    /// Names register write number `index` of the command.
    fn command_write(&self, index: u8) -> (op: PortOp)
        ensures
            op == self.spec_command_write(index),
    {
        let read = match self.kind {
            TransferKind::Read => true,
            TransferKind::Identify => false,
        };
        let lba: u64 = self.lba_start as u64;
        let count: u64 = self.sector_count as u64;
        if index == 0 {
            let select: u8 = if read {
                assert((lba >> 24) & 0x0F == lba / 0x100_0000 % 0x10) by (bit_vector);
                0xE0u8 | self.which.select_bit() | ((lba >> 24) & 0x0F) as u8
            } else {
                0xA0u8 | self.which.select_bit()
            };
            self.bus.drive_select.write(select)
        } else if index == 1 {
            assert(count & 0xFF == count % 0x100) by (bit_vector);
            self.bus.sector_count.write(
                if read {
                    (count & 0xFF) as u8
                } else {
                    0
                },
            )
        } else if index == 2 {
            assert((lba >> 16) & 0xFF == lba / 0x1_0000 % 0x100) by (bit_vector);
            self.bus.lba_high.write(
                if read {
                    ((lba >> 16) & 0xFF) as u8
                } else {
                    0
                },
            )
        } else if index == 3 {
            assert((lba >> 8) & 0xFF == lba / 0x100 % 0x100) by (bit_vector);
            self.bus.lba_mid.write(
                if read {
                    ((lba >> 8) & 0xFF) as u8
                } else {
                    0
                },
            )
        } else if index == 4 {
            assert(lba & 0xFF == lba % 0x100) by (bit_vector);
            self.bus.lba_low.write(
                if read {
                    (lba & 0xFF) as u8
                } else {
                    0
                },
            )
        } else {
            self.bus.command.write(
                if read {
                    ATACommand::Read.code()
                } else {
                    ATACommand::Identify.code()
                },
            )
        }
    }

    /// Starts a status sample for `wait`.
    fn sample(&mut self, wait: Wait, polls: usize, stalled: bool) -> (step: Step)
        ensures
            (*final(self), step) == old(self).spec_sample(wait, polls, stalled),
    {
        self.phase = Phase::Sampling { wait, reads: 1, polls };
        Step { action: Action::Io(self.bus.status(0)), stalled }
    }

    /// Ends the transfer.
    fn finish(&mut self, outcome: Result<usize, AtaError>, stalled: bool) -> (step: Step)
        ensures
            (*final(self), step) == old(self).spec_finish(outcome, stalled),
    {
        self.phase = Phase::Finished { outcome };
        Step { action: Action::Done(outcome), stalled }
    }

    /// Acts on a status sample that showed `status`.
    fn judge(&mut self, wait: Wait, polls: usize, status: ATAStatus) -> (step: Step)
        requires
            polls <= TIMEOUT + 1,
        ensures
            (*final(self), step) == old(self).spec_judge(wait, polls, status),
    {
        match wait {
            Wait::Idle | Wait::End => {
                let taken: usize = if polls <= TIMEOUT {
                    polls + 1
                } else {
                    polls
                };
                let poll = ATABus::wait_for_done(status, taken);
                match poll.verdict {
                    Verdict::Failed => self.finish(Err(AtaError::DeviceFault), false),
                    Verdict::Again => self.sample(wait, taken, poll.stalled),
                    Verdict::Proceed => match wait {
                        Wait::Idle => {
                            self.phase = Phase::Commanding { issued: 1 };
                            Step {
                                action: Action::Io(self.command_write(0)),
                                stalled: poll.stalled,
                            }
                        },
                        _ => self.finish(Ok(self.sector_count), poll.stalled),
                    },
                }
            },
            Wait::Ready => {
                let taken: usize = (polls + 1) % TIMEOUT;
                let poll = ATABus::wait_for_ready(status, taken);
                match poll.verdict {
                    Verdict::Failed => self.finish(Err(AtaError::DeviceFault), false),
                    Verdict::Again => self.sample(wait, taken, poll.stalled),
                    Verdict::Proceed => {
                        self.phase = Phase::Transferring { word: 0 };
                        Step { action: Action::Io(self.bus.data.read()), stalled: false }
                    },
                }
            },
            Wait::Present => {
                if status.is_empty() {
                    self.finish(Err(AtaError::NoDrive), false)
                } else {
                    self.sample(Wait::NotBusy, 0, false)
                }
            },
            Wait::NotBusy => {
                if status.intersects(STATUS_BUSY) {
                    self.phase = Phase::Signature { high: false };
                    Step { action: Action::Io(self.bus.lba_mid.read()), stalled: false }
                } else {
                    self.sample(Wait::Ready, 0, false)
                }
            },
        }
    }

    /// Takes the answer to the port access named last, and names the next
    /// one.
    pub fn step(&mut self, input: u16, buffer: &mut [u8]) -> (step: Step)
        requires
            old(self).wf(),
            old(buffer).len() >= old(self).buffer_need(),
        ensures
            (*final(self), step) == old(self).spec_step(input),
            final(buffer)@ == old(self).spec_store(old(buffer)@, input),
            final(self).wf(),
    {
        let (low, high) = split_word(input);
        match self.phase {
            Phase::Start => {
                if self.sector_count == 0 {
                    self.finish(Ok(0), false)
                } else {
                    self.sample(Wait::Idle, 0, false)
                }
            },
            Phase::Sampling { wait, reads, polls } => {
                if reads < 5 {
                    self.phase = Phase::Sampling { wait, reads: reads + 1, polls };
                    Step { action: Action::Io(self.bus.status(reads)), stalled: false }
                } else {
                    self.judge(wait, polls, ATAStatus::from_bits_truncate(low))
                }
            },
            Phase::Commanding { issued } => {
                if issued < 6 {
                    self.phase = Phase::Commanding { issued: issued + 1 };
                    Step { action: Action::Io(self.command_write(issued)), stalled: false }
                } else {
                    match self.kind {
                        TransferKind::Read => self.sample(Wait::Ready, 0, false),
                        TransferKind::Identify => self.sample(Wait::Present, 0, false),
                    }
                }
            },
            Phase::Signature { high: second } => {
                if low != 0 {
                    self.finish(Err(AtaError::NotAta), false)
                } else if !second {
                    self.phase = Phase::Signature { high: true };
                    Step { action: Action::Io(self.bus.lba_high.read()), stalled: false }
                } else {
                    self.sample(Wait::NotBusy, 0, false)
                }
            },
            Phase::Transferring { word } => {
                assert(SECTOR_SIZE * self.sector + 2 * word + 1 < SECTOR_SIZE * self.sector_count)
                    by (nonlinear_arith)
                    requires
                        self.sector < self.sector_count,
                        word < 256,
                ;
                let at: usize = SECTOR_SIZE * self.sector + 2 * word;
                buffer[at] = low;
                buffer[at + 1] = high;
                if word + 1 < 256 {
                    self.phase = Phase::Transferring { word: word + 1 };
                    Step { action: Action::Io(self.bus.data.read()), stalled: false }
                } else {
                    self.sector = self.sector + 1;
                    if self.sector < self.sector_count {
                        self.sample(Wait::Ready, 0, false)
                    } else {
                        self.sample(Wait::End, 0, false)
                    }
                }
            },
            Phase::Finished { outcome } => Step { action: Action::Done(outcome), stalled: false },
        }
    }
}

/// The steps of a transfer that is given `inputs` one after the other.
pub open spec fn spec_run(transfer: Transfer, inputs: Seq<u16>) -> Seq<Step>
    decreases inputs.len(),
{
    if inputs.len() == 0 {
        Seq::empty()
    } else {
        let (next, step) = transfer.spec_step(inputs[0]);
        seq![step] + spec_run(next, inputs.drop_first())
    }
}

/// A transfer that is over stays over: it names no port access again.
pub proof fn lemma_finished_stays(transfer: Transfer, inputs: Seq<u16>, i: int)
    requires
        transfer.phase is Finished,
        0 <= i < inputs.len(),
    ensures
        spec_run(transfer, inputs).len() == inputs.len(),
        spec_run(transfer, inputs)[i] == (Step {
            action: Action::Done(transfer.phase->outcome),
            stalled: false,
        }),
    decreases inputs.len(),
{
    lemma_run_len(transfer, inputs);
    if i > 0 {
        lemma_finished_stays(transfer, inputs.drop_first(), i - 1);
    }
}

/// A transfer takes one step for each answer.
pub proof fn lemma_run_len(transfer: Transfer, inputs: Seq<u16>)
    ensures
        spec_run(transfer, inputs).len() == inputs.len(),
    decreases inputs.len(),
{
    if inputs.len() > 0 {
        lemma_run_len(transfer.spec_step(inputs[0]).0, inputs.drop_first());
    }
}

/// A read of no sectors is over at once, with no sector read: whatever it
/// is told, it never names a port access, and it leaves the buffer as it
/// is.
pub proof fn lemma_empty_read_is_silent(transfer: Transfer, inputs: Seq<u16>, i: int)
    requires
        transfer.phase is Start,
        transfer.sector_count == 0,
        0 <= i < inputs.len(),
    ensures
        spec_run(transfer, inputs)[i] == (Step { action: Action::Done(Ok(0)), stalled: false }),
        forall|buffer: Seq<u8>, input: u16| transfer.spec_store(buffer, input) == buffer,
        forall|buffer: Seq<u8>, input: u16|
            transfer.spec_step(inputs[0]).0.spec_store(buffer, input) == buffer,
{
    let (next, step) = transfer.spec_step(inputs[0]);
    if i > 0 {
        lemma_finished_stays(next, inputs.drop_first(), i - 1);
    }
}

/// A data word is asked for only after a status sample that showed the
/// device ready to hand one over: not busy, with no fault, and asking for
/// data.
pub proof fn lemma_data_follows_ready(transfer: Transfer, input: u16)
    requires
        transfer.wf(),
        !(transfer.phase is Transferring),
        transfer.spec_step(input).0.phase is Transferring,
    ensures
        (transfer.phase matches Phase::Sampling { wait: Wait::Ready, reads: 5, .. }),
        !(ATAStatus { bits: low_byte(input) }).faulted(),
        !(ATAStatus { bits: low_byte(input) }).busy(),
        (ATAStatus { bits: low_byte(input) }).data_request(),
        transfer.spec_step(input).1.action == Action::Io(PortOp::ReadWord(transfer.bus.data.port)),
{
}

/// A fault that a status sample shows while the transfer waits for the
/// device ends the transfer with an error, and nothing that it named
/// before is carried on with.
pub proof fn lemma_fault_aborts(transfer: Transfer, input: u16)
    requires
        (transfer.phase matches Phase::Sampling { wait, reads: 5, .. } && (wait is Idle
            || wait is Ready || wait is End)),
        (ATAStatus { bits: low_byte(input) }).faulted(),
    ensures
        transfer.spec_step(input).0.phase == (Phase::Finished {
            outcome: Err(AtaError::DeviceFault),
        }),
        transfer.spec_step(input).1.action == Action::Done(Err(AtaError::DeviceFault)),
{
}

/// The address bytes that a read writes to the registers make up the low
/// 28 bits of the sector number.
pub proof fn lemma_address_registers(lba: usize)
    ensures
        lba % 0x100 + 0x100 * (lba / 0x100 % 0x100) + 0x1_0000 * (lba / 0x1_0000 % 0x100)
            + 0x100_0000 * (lba / 0x100_0000 % 0x10) == lba % 0x1000_0000,
{
    let low = lba as int / 0x100;
    let mid = low / 0x100;
    let high = mid / 0x100;
    assert(mid == lba as int / 0x1_0000);
    assert(high == lba as int / 0x100_0000);
    assert(high / 0x10 == lba as int / 0x1000_0000);
}

/// The transfer and the buffer after the answers `inputs`, handed over one
/// after the other.
pub open spec fn spec_feed(transfer: Transfer, buffer: Seq<u8>, inputs: Seq<u16>) -> (
    Transfer,
    Seq<u8>,
)
    decreases inputs.len(),
{
    if inputs.len() == 0 {
        (transfer, buffer)
    } else {
        spec_feed(
            transfer.spec_step(inputs[0]).0,
            transfer.spec_store(buffer, inputs[0]),
            inputs.drop_first(),
        )
    }
}

/// The bytes of `words`, each word's low byte before its high byte.
pub open spec fn word_bytes(words: Seq<u16>) -> Seq<u8> {
    Seq::new(
        2 * words.len(),
        |i: int|
            if i % 2 == 0 {
                low_byte(words[i / 2])
            } else {
                high_byte(words[i / 2])
            },
    )
}

/// The words of a sector from word `from` on go to their places in the
/// buffer, two bytes each, and leave the rest of the buffer as it is;
/// behind the last of them the transfer waits for the next sector, or for
/// the device to settle if that was the last sector.
proof fn lemma_words_fill(transfer: Transfer, buffer: Seq<u8>, words: Seq<u16>, from: int)
    requires
        transfer.wf(),
        transfer.phase == (Phase::Transferring { word: from as usize }),
        0 <= from < 256,
        words.len() == 256 - from,
        buffer.len() >= transfer.buffer_need(),
    ensures
        ({
            let start = SECTOR_SIZE * transfer.sector + 2 * from;
            let (after, filled) = spec_feed(transfer, buffer, words);
            let moved = Transfer { sector: (transfer.sector + 1) as usize, ..transfer };
            &&& filled == buffer.subrange(0, start) + word_bytes(words) + buffer.subrange(
                start + 2 * words.len(),
                buffer.len() as int,
            )
            &&& after == moved.spec_sample(
                if moved.sector < moved.sector_count {
                    Wait::Ready
                } else {
                    Wait::End
                },
                0,
                false,
            ).0
        }),
    decreases words.len(),
{
    let start = SECTOR_SIZE * transfer.sector + 2 * from;
    assert(start + 2 * words.len() <= SECTOR_SIZE * transfer.sector_count) by (nonlinear_arith)
        requires
            transfer.sector < transfer.sector_count,
            start + 2 * words.len() == SECTOR_SIZE * transfer.sector + SECTOR_SIZE,
    ;
    let next = transfer.spec_step(words[0]).0;
    let stored = transfer.spec_store(buffer, words[0]);
    let rest = words.drop_first();
    if from == 255 {
        assert(rest.len() == 0);
        assert(spec_feed(next, stored, rest) == (next, stored));
        assert(stored =~= buffer.subrange(0, start) + word_bytes(words) + buffer.subrange(
            start + 2,
            buffer.len() as int,
        ));
    } else {
        lemma_words_fill(next, stored, rest, from + 1);
        let filled = spec_feed(next, stored, rest).1;
        assert(filled =~= buffer.subrange(0, start) + word_bytes(words) + buffer.subrange(
            start + 2 * words.len(),
            buffer.len() as int,
        )) by {
            assert forall|i: int| 0 <= i < buffer.len() implies filled[i] == (buffer.subrange(
                0,
                start,
            ) + word_bytes(words) + buffer.subrange(
                start + 2 * words.len(),
                buffer.len() as int,
            ))[i] by {
                if start + 2 <= i < start + 2 * words.len() {
                    let j = i - (start + 2);
                    assert(filled[i] == word_bytes(rest)[j]);
                    assert(rest[j / 2] == words[(j + 2) / 2]);
                } else if i < start + 2 {
                    assert(filled[i] == stored[i]);
                }
            }
        }
    }
}

/// The 256 words of a sector fill the sector's 512 bytes of the buffer,
/// each word's low byte before its high byte, and change no other byte.
pub proof fn lemma_sector_fills_buffer(transfer: Transfer, buffer: Seq<u8>, words: Seq<u16>)
    requires
        transfer.wf(),
        transfer.phase == (Phase::Transferring { word: 0 }),
        words.len() == 256,
        buffer.len() >= transfer.buffer_need(),
    ensures
        spec_feed(transfer, buffer, words).1 == buffer.subrange(
            0,
            SECTOR_SIZE * transfer.sector,
        ) + word_bytes(words) + buffer.subrange(
            SECTOR_SIZE * transfer.sector + SECTOR_SIZE,
            buffer.len() as int,
        ),
        spec_feed(transfer, buffer, words).0.sector == transfer.sector + 1,
        (spec_feed(transfer, buffer, words).0.phase matches Phase::Sampling {
            wait,
            reads: 1,
            polls: 0,
        } && (wait is Ready <==> transfer.sector + 1 < transfer.sector_count) && (wait is End
            <==> transfer.sector + 1 == transfer.sector_count)),
{
    lemma_words_fill(transfer, buffer, words, 0);
}

/// Whether `input` is what a willing device answers to the port access
/// that `transfer` named last: where that was the read of the status
/// register, a status that ends the wait at once.
pub open spec fn willing(transfer: Transfer, input: u16) -> bool {
    let status = ATAStatus { bits: low_byte(input) };
    match transfer.phase {
        Phase::Sampling { wait, reads: 5, .. } => match wait {
            Wait::Idle | Wait::End => !status.faulted() && !status.data_request(),
            Wait::Ready => !status.faulted() && !status.busy() && status.data_request(),
            Wait::Present => !status.spec_is_empty(),
            Wait::NotBusy => !status.busy(),
        },
        _ => true,
    }
}

/// Whether all of `inputs` are a willing device's answers.
pub open spec fn all_willing(transfer: Transfer, inputs: Seq<u16>) -> bool
    decreases inputs.len(),
{
    inputs.len() == 0 || (willing(transfer, inputs[0]) && all_willing(
        transfer.spec_step(inputs[0]).0,
        inputs.drop_first(),
    ))
}

/// Where among the answers of a willing device the first data word
/// stands: behind one answer that is not looked at, five of the first
/// status sample, six to the command and five of the status sample before
/// the sector, and for the identify command behind the ten of two more
/// status samples.
pub open spec fn first_word(kind: TransferKind) -> int {
    match kind {
        TransferKind::Read => 17,
        TransferKind::Identify => 27,
    }
}

/// Answers that a transfer of `count` sectors takes from a willing device:
/// those up to the first data word, 256 for each sector, five between one
/// sector and the next, and five of the last status sample.
pub open spec fn answers(kind: TransferKind, count: int) -> int {
    first_word(kind) + 261 * count
}

/// Where among the answers of a willing device the data word `word` of
/// sector `sector` stands.
pub open spec fn word_place(kind: TransferKind, sector: int, word: int) -> int {
    first_word(kind) + 261 * sector + word
}

/// Byte `i` of the sectors that the answers `inputs` hold.
pub open spec fn data_byte(kind: TransferKind, inputs: Seq<u16>, i: int) -> u8 {
    let word = inputs[word_place(kind, i / 512, i % 512 / 2)];
    if i % 2 == 0 {
        low_byte(word)
    } else {
        high_byte(word)
    }
}

/// How many answers a transfer has taken from a willing device when it is
/// where `transfer` is.
pub open spec fn progress(transfer: Transfer) -> int {
    let first = first_word(transfer.kind);
    match transfer.phase {
        Phase::Start => 0,
        Phase::Sampling { wait, reads, .. } => match wait {
            Wait::Idle => reads as int,
            Wait::Present => 11 + reads,
            Wait::NotBusy => 16 + reads,
            Wait::Ready => first - 6 + 261 * transfer.sector + reads,
            Wait::End => first - 6 + 261 * transfer.sector_count + reads,
        },
        Phase::Commanding { issued } => 5 + issued,
        Phase::Signature { .. } => 0,
        Phase::Transferring { word } => first + 261 * transfer.sector + word,
        Phase::Finished { .. } => answers(transfer.kind, transfer.sector_count as int),
    }
}

/// Bytes of the buffer that a transfer has filled when it is where
/// `transfer` is.
pub open spec fn filled_bytes(transfer: Transfer) -> int {
    SECTOR_SIZE * transfer.sector + match transfer.phase {
        Phase::Transferring { word } => 2 * word,
        _ => 0,
    }
}

/// A transfer that a willing device has brought to where `transfer` is.
pub open spec fn on_course(transfer: Transfer) -> bool {
    &&& transfer.wf()
    &&& transfer.sector_count > 0
    &&& match transfer.phase {
        Phase::Signature { .. } => false,
        Phase::Finished { outcome } => outcome == Ok::<usize, AtaError>(transfer.sector_count)
            && transfer.sector == transfer.sector_count,
        _ => true,
    }
}

/// The buffer of a transfer that is where `transfer` is: what it has
/// filled holds the data words of `inputs`, the rest is as in `before`.
pub open spec fn buffer_on_course(
    transfer: Transfer,
    inputs: Seq<u16>,
    before: Seq<u8>,
    buffer: Seq<u8>,
) -> bool {
    &&& buffer.len() == before.len()
    &&& forall|i: int|
        0 <= i < buffer.len() ==> #[trigger] buffer[i] == if i < filled_bytes(transfer) {
            data_byte(transfer.kind, inputs, i)
        } else {
            before[i]
        }
}

/// A transfer that is on its course stays on it to its end.
proof fn lemma_runs_its_course(
    transfer: Transfer,
    inputs: Seq<u16>,
    before: Seq<u8>,
    buffer: Seq<u8>,
    at: int,
)
    requires
        on_course(transfer),
        inputs.len() == answers(transfer.kind, transfer.sector_count as int),
        at == progress(transfer),
        all_willing(transfer, inputs.skip(at)),
        before.len() >= transfer.buffer_need(),
        buffer_on_course(transfer, inputs, before, buffer),
    ensures
        ({
            let (after, filled) = spec_feed(transfer, buffer, inputs.skip(at));
            &&& after.phase == (Phase::Finished { outcome: Ok(transfer.sector_count) })
            &&& after.sector == transfer.sector_count
            &&& after.sector_count == transfer.sector_count
            &&& after.kind == transfer.kind
            &&& buffer_on_course(after, inputs, before, filled)
        }),
    decreases inputs.len() - at,
{
    let count = transfer.sector_count as int;
    assert(SECTOR_SIZE * transfer.sector <= SECTOR_SIZE * count) by (nonlinear_arith)
        requires
            transfer.sector <= count,
    ;
    assert(0 <= at <= inputs.len() && (at == inputs.len() ==> transfer.phase is Finished))
        by (nonlinear_arith)
        requires
            at == progress(transfer),
            on_course(transfer),
            inputs.len() == first_word(transfer.kind) + 261 * count,
            count == transfer.sector_count,
    ;
    let rest = inputs.skip(at);
    if at < inputs.len() {
        let input = rest[0];
        assert(input == inputs[at]);
        let next = transfer.spec_step(input).0;
        let stored = transfer.spec_store(buffer, input);
        assert(rest.drop_first() =~= inputs.skip(at + 1));
        assert(willing(transfer, input));
        assert(on_course(next));
        assert(progress(next) == at + 1);
        assert(buffer_on_course(next, inputs, before, stored)) by {
            match transfer.phase {
                Phase::Transferring { word } => {
                    let place = SECTOR_SIZE * transfer.sector + 2 * word;
                    assert(place + 1 < SECTOR_SIZE * count) by (nonlinear_arith)
                        requires
                            transfer.sector < count,
                            word < 256,
                            place == SECTOR_SIZE * transfer.sector + 2 * word,
                    ;
                    assert(place / 512 == transfer.sector && place % 512 == 2 * word);
                    assert((place + 1) / 512 == transfer.sector && (place + 1) % 512 == 2 * word
                        + 1);
                    assert(data_byte(transfer.kind, inputs, place) == low_byte(input));
                    assert(data_byte(transfer.kind, inputs, place + 1) == high_byte(input));
                    assert(filled_bytes(next) == place + 2);
                },
                _ => {
                    assert(filled_bytes(next) == filled_bytes(transfer));
                },
            }
        }
        lemma_runs_its_course(next, inputs, before, stored, at + 1);
    }
}

/// A transfer from a willing device runs its course: it takes a fixed
/// number of answers, ends with as many sectors read as were asked for, and
/// leaves in the buffer the data words that it was given, sector after
/// sector and word after word, each word's low byte before its high byte,
/// with the bytes behind the last sector as they were.
pub proof fn lemma_transfer_from_willing_device(
    transfer: Transfer,
    inputs: Seq<u16>,
    buffer: Seq<u8>,
)
    requires
        transfer.wf(),
        transfer.phase is Start,
        transfer.sector_count > 0,
        inputs.len() == answers(transfer.kind, transfer.sector_count as int),
        all_willing(transfer, inputs),
        buffer.len() >= transfer.buffer_need(),
    ensures
        ({
            let (after, filled) = spec_feed(transfer, buffer, inputs);
            &&& after.phase == (Phase::Finished { outcome: Ok(transfer.sector_count) })
            &&& filled.len() == buffer.len()
            &&& forall|i: int|
                0 <= i < SECTOR_SIZE * transfer.sector_count ==> #[trigger] filled[i] == data_byte(
                    transfer.kind,
                    inputs,
                    i,
                )
            &&& forall|i: int|
                SECTOR_SIZE * transfer.sector_count <= i < buffer.len() ==> #[trigger] filled[i]
                    == buffer[i]
        }),
{
    assert(inputs.skip(0) =~= inputs);
    lemma_runs_its_course(transfer, inputs, buffer, buffer, 0);
}

/// What a drive says of itself in its identification sector.
#[derive(Debug, Clone, Copy)]
pub struct DriveIdentity {
    pub general_config: u16,
    pub model_number: [u8; 20],
    pub support_lba48: bool,
    pub user_adressable_sectors: u32,
}

/// Whether bit `bit` of `input` is set, bit 0 being the lowest.
pub open spec fn spec_get_bit_u16(input: u16, bit: u8) -> bool {
    (input >> bit) & 0x1 == 1
}

/// Tests bit `bit` of `input`.
pub fn get_bit_u16(input: u16, bit: u8) -> (set: bool)
    requires
        bit < 16,
    ensures
        set == spec_get_bit_u16(input, bit),
{
    (input >> bit) & 0x1 == 1
}

impl DriveIdentity {
    /// The identity that the sector `buffer` holds: the configuration word
    /// in its first two bytes, the flag for 48-bit addresses in bit 10 of
    /// the word at byte 83, the number of sectors in the four bytes from
    /// byte 120 on. The model is left blank.
    pub open spec fn decode(buffer: Seq<u8>) -> DriveIdentity {
        DriveIdentity {
            general_config: le_u16(buffer, 0) as u16,
            model_number: [0, 0, 0, 0, 0, 0, 0, 0, 0, 0, 0, 0, 0, 0, 0, 0, 0, 0, 0, 0],
            support_lba48: spec_get_bit_u16(le_u16(buffer, 83) as u16, 10),
            user_adressable_sectors: le_u32(buffer, 120) as u32,
        }
    }

    /// Reads the identity that the sector `buffer` holds.
    pub fn new(buffer: [u8; SECTOR_SIZE]) -> (identity: Self)
        ensures
            identity == Self::decode(buffer@),
    {
        let general_config = read_le_u16(buffer.as_slice(), 0);
        let model_number: [u8; 20] = [0, 0, 0, 0, 0, 0, 0, 0, 0, 0, 0, 0, 0, 0, 0, 0, 0, 0, 0, 0];
        let support_lba48 = get_bit_u16(read_le_u16(buffer.as_slice(), 83), 10);
        let user_adressable_sectors = read_le_u32(buffer.as_slice(), 120);
        Self { general_config, model_number, user_adressable_sectors, support_lba48 }
    }
}

} // verus!
