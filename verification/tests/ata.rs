use pollos::file_system::ata::{
    get_bit_u16, ATABus, ATACommand, ATAStatus, Action, AtaError, BusDrive, DriveIdentity, Phase,
    Poll, Transfer, Verdict, STATUS_BUSY, STATUS_DATA_REQUEST_READY, STATUS_DRIVE_READY,
    STATUS_DRIVE_WRITE_FAULT, STATUS_ERROR,
};
use pollos::file_system::io::{PortOp, PortRW, PortReader, PortWriter};

const IDLE: u8 = STATUS_DRIVE_READY;
const READY: u8 = STATUS_DRIVE_READY | STATUS_DATA_REQUEST_READY;

/// A controller at the usual ports that answers status reads from a list,
/// then with `rest`, and data reads with the words 0x0100, 0x0302 and so
/// on.
struct Device {
    statuses: Vec<u8>,
    rest: u8,
    next_word: u16,
    mid: u8,
    high: u8,
    ops: Vec<PortOp>,
}

impl Device {
    fn new(statuses: &[u8], rest: u8) -> Device {
        Device { statuses: statuses.to_vec(), rest, next_word: 0, mid: 0, high: 0, ops: Vec::new() }
    }

    fn answer(&mut self, op: PortOp) -> u16 {
        self.ops.push(op);
        match op {
            PortOp::ReadByte(0x1F7) => {
                if self.statuses.is_empty() {
                    self.rest as u16
                } else {
                    self.statuses.remove(0) as u16
                }
            }
            PortOp::ReadByte(0x3F6) => 0xFF,
            PortOp::ReadByte(0x1F4) => self.mid as u16,
            PortOp::ReadByte(0x1F5) => self.high as u16,
            PortOp::ReadWord(0x1F0) => {
                let low = self.next_word.wrapping_mul(2) & 0xFF;
                let high = (self.next_word.wrapping_mul(2) + 1) & 0xFF;
                self.next_word += 1;
                (high << 8) | low
            }
            PortOp::WriteByte(_, _) => 0xDEAD,
            other => panic!("the driver has no business with {:?}", other),
        }
    }
}

fn run(mut transfer: Transfer, buffer: &mut [u8], device: &mut Device) -> (Result<usize, AtaError>, usize) {
    let mut input = 0xBEEF;
    let mut stalls = 0;
    for _ in 0..10_000_000 {
        let step = transfer.step(input, buffer);
        if step.stalled {
            stalls += 1;
        }
        match step.action {
            Action::Io(op) => input = device.answer(op),
            Action::Done(outcome) => {
                assert_eq!(transfer.phase, Phase::Finished { outcome });
                let again = transfer.step(0, buffer);
                assert_eq!(again.action, Action::Done(outcome));
                assert!(!again.stalled);
                return (outcome, stalls);
            }
        }
    }
    panic!("the transfer did not end");
}

fn bus() -> ATABus {
    ATABus::new(0x1F0, 0x3F6)
}

fn sample() -> Vec<PortOp> {
    vec![
        PortOp::ReadByte(0x3F6),
        PortOp::ReadByte(0x3F6),
        PortOp::ReadByte(0x3F6),
        PortOp::ReadByte(0x3F6),
        PortOp::ReadByte(0x1F7),
    ]
}

#[test]
fn ports_count_up_from_the_masked_bases() {
    let bus = ATABus::new(0x1F3, 0x3F7);
    assert_eq!(bus.data.port, 0x1F0);
    assert_eq!(bus.error.port, 0x1F1);
    assert_eq!(bus.sector_count.port, 0x1F2);
    assert_eq!(bus.lba_low.port, 0x1F3);
    assert_eq!(bus.lba_mid.port, 0x1F4);
    assert_eq!(bus.lba_high.port, 0x1F5);
    assert_eq!(bus.drive_select.port, 0x1F6);
    assert_eq!(bus.command.port, 0x1F7);
    assert_eq!(bus.status.port, 0x1F7);
    assert_eq!(bus.alt_status.port, 0x3F6);
    assert_eq!(bus.control.port, 0x3F6);
    let top = ATABus::new(0xFFFB, 0xFFFF);
    assert_eq!(top.data.port, 0xFFF8);
    assert_eq!(top.command.port, 0xFFFF);
    assert_eq!(top.control.port, 0xFFFE);
}

#[test]
fn typed_ports_name_accesses_of_their_width() {
    assert_eq!(PortReader::<u8>::new(7).read(), PortOp::ReadByte(7));
    assert_eq!(PortReader::<u16>::new(7).read(), PortOp::ReadWord(7));
    assert_eq!(PortWriter::<u8>::new(8).write(0xAB), PortOp::WriteByte(8, 0xAB));
    assert_eq!(PortWriter::<u16>::new(8).write(0xABCD), PortOp::WriteWord(8, 0xABCD));
    let both = PortRW::<u16>::new(9);
    assert_eq!(both.read(), PortOp::ReadWord(9));
    assert_eq!(both.write(1), PortOp::WriteWord(9, 1));
    let both = PortRW::<u8>::new(9);
    assert_eq!(both.read(), PortOp::ReadByte(9));
    assert_eq!(both.write(1), PortOp::WriteByte(9, 1));
}

#[test]
fn drive_bits_and_command_codes() {
    assert_eq!(BusDrive::Master.select_bit(), 0x00);
    assert_eq!(BusDrive::Slave.select_bit(), 0x10);
    assert_eq!(ATACommand::Read.code(), 0x20);
    assert_eq!(ATACommand::Write.code(), 0x30);
    assert_eq!(ATACommand::CacheFlush.code(), 0xE7);
    assert_eq!(ATACommand::Identify.code(), 0xEC);
}

#[test]
fn status_flags() {
    let status = ATAStatus::from_bits_truncate(0x58);
    assert_eq!(status.bits, 0x58);
    assert!(status.intersects(STATUS_DATA_REQUEST_READY));
    assert!(status.intersects(STATUS_DRIVE_READY | STATUS_ERROR));
    assert!(!status.intersects(STATUS_BUSY | STATUS_ERROR));
    assert!(!status.is_empty());
    assert!(ATAStatus::from_bits_truncate(0).is_empty());
    assert!(!ATAStatus::from_bits_truncate(0).intersects(0xFF));
}

#[test]
fn reading_no_sector_touches_no_port() {
    let mut device = Device::new(&[], STATUS_ERROR);
    let mut buffer = [0x55u8; 16];
    let (outcome, stalls) = run(bus().read(BusDrive::Master, 1234, 0), &mut buffer, &mut device);
    assert_eq!(outcome, Ok(0));
    assert_eq!(stalls, 0);
    assert!(device.ops.is_empty());
    assert_eq!(buffer, [0x55u8; 16]);
}

#[test]
fn reading_one_sector_follows_the_protocol() {
    let mut device = Device::new(&[IDLE, READY, IDLE], STATUS_ERROR);
    let mut buffer = [0u8; 512];
    let transfer = bus().read(BusDrive::Slave, 0x0ABC_DEF1, 1);
    let (outcome, stalls) = run(transfer, &mut buffer, &mut device);
    assert_eq!(outcome, Ok(1));
    assert_eq!(stalls, 0);
    let mut expected = sample();
    expected.extend_from_slice(&[
        PortOp::WriteByte(0x1F6, 0xE0 | 0x10 | 0x0A),
        PortOp::WriteByte(0x1F2, 1),
        PortOp::WriteByte(0x1F5, 0xBC),
        PortOp::WriteByte(0x1F4, 0xDE),
        PortOp::WriteByte(0x1F3, 0xF1),
        PortOp::WriteByte(0x1F7, 0x20),
    ]);
    expected.extend(sample());
    expected.extend(std::iter::repeat(PortOp::ReadWord(0x1F0)).take(256));
    expected.extend(sample());
    assert_eq!(device.ops, expected);
    for (i, byte) in buffer.iter().enumerate() {
        assert_eq!(*byte, i as u8);
    }
}

#[test]
fn words_go_to_the_buffer_low_byte_first() {
    let mut transfer = bus().read(BusDrive::Master, 0, 1);
    let mut buffer = [0u8; 512];
    let mut device = Device::new(&[IDLE, READY], IDLE);
    let mut input = 0;
    loop {
        let step = transfer.step(input, &mut buffer);
        match step.action {
            Action::Io(PortOp::ReadWord(_)) => break,
            Action::Io(op) => input = device.answer(op),
            Action::Done(_) => panic!("ended before any data"),
        }
    }
    assert_eq!(transfer.phase, Phase::Transferring { word: 0 });
    transfer.step(0xABCD, &mut buffer);
    assert_eq!(buffer[0], 0xCD);
    assert_eq!(buffer[1], 0xAB);
    transfer.step(0x1234, &mut buffer);
    assert_eq!(buffer[2], 0x34);
    assert_eq!(buffer[3], 0x12);
    assert_eq!(transfer.phase, Phase::Transferring { word: 2 });
    assert!(buffer[4..].iter().all(|b| *b == 0));
}

#[test]
fn reading_three_sectors_waits_before_each() {
    let mut device = Device::new(&[IDLE, READY, READY, READY, IDLE], STATUS_ERROR);
    let mut buffer = vec![0u8; 3 * 512 + 4];
    let (outcome, _) = run(bus().read(BusDrive::Master, 7, 3), &mut buffer, &mut device);
    assert_eq!(outcome, Ok(3));
    assert_eq!(device.ops.len(), 5 + 6 + 3 * (5 + 256) + 5);
    assert_eq!(device.ops[6], PortOp::WriteByte(0x1F2, 3));
    for (i, byte) in buffer[..1536].iter().enumerate() {
        assert_eq!(*byte, i as u8);
    }
    assert_eq!(buffer[1536..], [0, 0, 0, 0]);
}

#[test]
fn only_the_low_bits_of_address_and_count_reach_the_device() {
    let mut device = Device::new(&[IDLE, STATUS_ERROR], STATUS_ERROR);
    let mut buffer = vec![0u8; 512 * 0x101];
    let transfer = bus().read(BusDrive::Master, 0xF123_4567, 0x101);
    let (outcome, _) = run(transfer, &mut buffer, &mut device);
    assert_eq!(outcome, Err(AtaError::DeviceFault));
    assert_eq!(
        device.ops[5..11],
        [
            PortOp::WriteByte(0x1F6, 0xE1),
            PortOp::WriteByte(0x1F2, 0x01),
            PortOp::WriteByte(0x1F5, 0x23),
            PortOp::WriteByte(0x1F4, 0x45),
            PortOp::WriteByte(0x1F3, 0x67),
            PortOp::WriteByte(0x1F7, 0x20),
        ]
    );
}

#[test]
fn a_fault_before_the_command_ends_the_read() {
    for status in [STATUS_ERROR, STATUS_DRIVE_WRITE_FAULT, STATUS_ERROR | STATUS_BUSY | READY] {
        let mut device = Device::new(&[status], IDLE);
        let mut buffer = [0u8; 512];
        let (outcome, _) = run(bus().read(BusDrive::Master, 0, 1), &mut buffer, &mut device);
        assert_eq!(outcome, Err(AtaError::DeviceFault));
        assert_eq!(device.ops, sample());
    }
}

#[test]
fn a_fault_between_sectors_ends_the_read() {
    let mut device = Device::new(&[IDLE, READY, STATUS_DRIVE_WRITE_FAULT], IDLE);
    let mut buffer = [0u8; 1024];
    let (outcome, _) = run(bus().read(BusDrive::Master, 0, 2), &mut buffer, &mut device);
    assert_eq!(outcome, Err(AtaError::DeviceFault));
    assert_eq!(device.ops.len(), 5 + 6 + 5 + 256 + 5);
    assert!(buffer[512..].iter().all(|b| *b == 0));
    assert_eq!(buffer[511], 0xFF);
}

#[test]
fn a_fault_after_the_last_sector_ends_the_read() {
    let mut device = Device::new(&[IDLE, READY, STATUS_ERROR], IDLE);
    let mut buffer = [0u8; 512];
    let (outcome, _) = run(bus().read(BusDrive::Master, 0, 1), &mut buffer, &mut device);
    assert_eq!(outcome, Err(AtaError::DeviceFault));
}

#[test]
fn the_read_waits_while_the_device_asks_for_data_of_an_older_command() {
    let mut device = Device::new(&[READY, READY | STATUS_BUSY, READY, IDLE, READY, IDLE], STATUS_ERROR);
    let mut buffer = [0u8; 512];
    let (outcome, stalls) = run(bus().read(BusDrive::Master, 0, 1), &mut buffer, &mut device);
    assert_eq!(outcome, Ok(1));
    assert_eq!(stalls, 0);
    assert_eq!(device.ops[..20], [sample(), sample(), sample(), sample()].concat());
    assert_eq!(device.ops[20], PortOp::WriteByte(0x1F6, 0xE0));
}

#[test]
fn the_read_waits_for_data_while_the_device_is_busy_or_silent() {
    let mut device = Device::new(&[IDLE, STATUS_BUSY, IDLE, STATUS_BUSY | READY, READY, IDLE], STATUS_ERROR);
    let mut buffer = [0u8; 512];
    let (outcome, stalls) = run(bus().read(BusDrive::Master, 0, 1), &mut buffer, &mut device);
    assert_eq!(outcome, Ok(1));
    assert_eq!(stalls, 0);
    assert_eq!(device.ops.len(), 5 + 6 + 4 * 5 + 256 + 5);
}

#[test]
fn a_long_wait_for_data_is_reported_every_thousand_samples() {
    let mut statuses = vec![IDLE];
    statuses.extend(std::iter::repeat(STATUS_BUSY).take(2500));
    statuses.extend_from_slice(&[READY, IDLE]);
    let mut device = Device::new(&statuses, STATUS_ERROR);
    let mut buffer = [0u8; 512];
    let (outcome, stalls) = run(bus().read(BusDrive::Master, 0, 1), &mut buffer, &mut device);
    assert_eq!(outcome, Ok(1));
    assert_eq!(stalls, 2);
}

#[test]
fn a_wait_for_data_that_is_not_busy_is_not_reported() {
    let mut statuses = vec![IDLE];
    statuses.extend(std::iter::repeat(IDLE).take(2500));
    statuses.extend_from_slice(&[READY, IDLE]);
    let mut device = Device::new(&statuses, STATUS_ERROR);
    let mut buffer = [0u8; 512];
    let (outcome, stalls) = run(bus().read(BusDrive::Master, 0, 1), &mut buffer, &mut device);
    assert_eq!(outcome, Ok(1));
    assert_eq!(stalls, 0);
}

#[test]
fn a_long_wait_for_the_device_to_settle_is_reported_once() {
    let mut statuses: Vec<u8> = std::iter::repeat(STATUS_BUSY | READY).take(3500).collect();
    statuses.extend_from_slice(&[IDLE, READY, IDLE]);
    let mut device = Device::new(&statuses, STATUS_ERROR);
    let mut buffer = [0u8; 512];
    let (outcome, stalls) = run(bus().read(BusDrive::Master, 0, 1), &mut buffer, &mut device);
    assert_eq!(outcome, Ok(1));
    assert_eq!(stalls, 1);
}

#[test]
fn wait_for_done_judges_one_sample() {
    let judge = |bits: u8, polls: usize| ATABus::wait_for_done(ATAStatus::from_bits_truncate(bits), polls);
    assert_eq!(judge(IDLE, 1), Poll { verdict: Verdict::Proceed, stalled: false });
    assert_eq!(judge(STATUS_BUSY, 1), Poll { verdict: Verdict::Proceed, stalled: false });
    assert_eq!(judge(STATUS_BUSY, 1000), Poll { verdict: Verdict::Proceed, stalled: true });
    assert_eq!(judge(READY, 1000), Poll { verdict: Verdict::Again, stalled: false });
    assert_eq!(judge(READY | STATUS_BUSY, 999), Poll { verdict: Verdict::Again, stalled: false });
    assert_eq!(judge(READY | STATUS_BUSY, 1000), Poll { verdict: Verdict::Again, stalled: true });
    assert_eq!(judge(READY | STATUS_BUSY, 1001), Poll { verdict: Verdict::Again, stalled: false });
    assert_eq!(judge(READY | STATUS_BUSY, 2000), Poll { verdict: Verdict::Again, stalled: false });
    assert_eq!(judge(STATUS_ERROR | STATUS_BUSY, 1000), Poll { verdict: Verdict::Failed, stalled: false });
    assert_eq!(judge(STATUS_DRIVE_WRITE_FAULT, 1), Poll { verdict: Verdict::Failed, stalled: false });
}

#[test]
fn wait_for_ready_judges_one_sample() {
    let judge = |bits: u8, polls: usize| ATABus::wait_for_ready(ATAStatus::from_bits_truncate(bits), polls);
    assert_eq!(judge(READY, 1), Poll { verdict: Verdict::Proceed, stalled: false });
    assert_eq!(judge(READY, 1000), Poll { verdict: Verdict::Proceed, stalled: false });
    assert_eq!(judge(IDLE, 1000), Poll { verdict: Verdict::Again, stalled: false });
    assert_eq!(judge(0, 5), Poll { verdict: Verdict::Again, stalled: false });
    assert_eq!(judge(READY | STATUS_BUSY, 1), Poll { verdict: Verdict::Again, stalled: false });
    assert_eq!(judge(STATUS_BUSY, 1000), Poll { verdict: Verdict::Again, stalled: true });
    assert_eq!(judge(STATUS_BUSY, 3000), Poll { verdict: Verdict::Again, stalled: true });
    assert_eq!(judge(STATUS_BUSY, 0), Poll { verdict: Verdict::Again, stalled: true });
    assert_eq!(judge(STATUS_BUSY, 3001), Poll { verdict: Verdict::Again, stalled: false });
    assert_eq!(judge(STATUS_ERROR | READY, 1), Poll { verdict: Verdict::Failed, stalled: false });
    assert_eq!(judge(STATUS_DRIVE_WRITE_FAULT | STATUS_BUSY, 1000), Poll { verdict: Verdict::Failed, stalled: false });
}

#[test]
fn status_is_read_after_four_reads_of_the_alternate_register() {
    let bus = bus();
    let ops: Vec<PortOp> = (0..5).map(|reads| bus.status(reads)).collect();
    assert_eq!(ops, sample());
}

#[test]
fn identify_follows_the_protocol() {
    let mut device = Device::new(&[IDLE, IDLE, IDLE, READY, IDLE], STATUS_ERROR);
    let mut buffer = [0u8; 512];
    let (outcome, stalls) = run(bus().identify(BusDrive::Slave), &mut buffer, &mut device);
    assert_eq!(outcome, Ok(1));
    assert_eq!(stalls, 0);
    let mut expected = sample();
    expected.extend_from_slice(&[
        PortOp::WriteByte(0x1F6, 0xB0),
        PortOp::WriteByte(0x1F2, 0),
        PortOp::WriteByte(0x1F5, 0),
        PortOp::WriteByte(0x1F4, 0),
        PortOp::WriteByte(0x1F3, 0),
        PortOp::WriteByte(0x1F7, 0xEC),
    ]);
    expected.extend(sample());
    expected.extend(sample());
    expected.extend(sample());
    expected.extend(std::iter::repeat(PortOp::ReadWord(0x1F0)).take(256));
    expected.extend(sample());
    assert_eq!(device.ops, expected);
    for (i, byte) in buffer.iter().enumerate() {
        assert_eq!(*byte, i as u8);
    }
}

#[test]
fn identify_of_the_first_drive_selects_it() {
    let mut device = Device::new(&[IDLE, 0], STATUS_ERROR);
    let mut buffer = [0u8; 512];
    run(bus().identify(BusDrive::Master), &mut buffer, &mut device);
    assert_eq!(device.ops[5], PortOp::WriteByte(0x1F6, 0xA0));
}

#[test]
fn a_status_of_zero_after_identify_means_no_drive() {
    let mut device = Device::new(&[IDLE, 0], IDLE);
    let mut buffer = [0u8; 512];
    let (outcome, _) = run(bus().identify(BusDrive::Master), &mut buffer, &mut device);
    assert_eq!(outcome, Err(AtaError::NoDrive));
    assert_eq!(device.ops.len(), 5 + 6 + 5);
}

#[test]
fn a_busy_drive_with_a_signature_is_no_ata_drive() {
    let mut device = Device::new(&[IDLE, STATUS_BUSY, STATUS_BUSY], IDLE);
    device.mid = 0x14;
    let mut buffer = [0u8; 512];
    let (outcome, _) = run(bus().identify(BusDrive::Master), &mut buffer, &mut device);
    assert_eq!(outcome, Err(AtaError::NotAta));
    assert_eq!(device.ops.len(), 5 + 6 + 5 + 5 + 1);
    assert_eq!(device.ops.last(), Some(&PortOp::ReadByte(0x1F4)));

    let mut device = Device::new(&[IDLE, STATUS_BUSY, STATUS_BUSY], IDLE);
    device.high = 0xEB;
    let (outcome, _) = run(bus().identify(BusDrive::Master), &mut buffer, &mut device);
    assert_eq!(outcome, Err(AtaError::NotAta));
    assert_eq!(device.ops.len(), 5 + 6 + 5 + 5 + 2);
    assert_eq!(device.ops.last(), Some(&PortOp::ReadByte(0x1F5)));
}

#[test]
fn a_signature_is_only_looked_for_while_the_drive_is_busy() {
    let mut device = Device::new(&[IDLE, IDLE, STATUS_BUSY, STATUS_BUSY, IDLE, READY, IDLE], STATUS_ERROR);
    let mut buffer = [0u8; 512];
    let (outcome, _) = run(bus().identify(BusDrive::Master), &mut buffer, &mut device);
    assert_eq!(outcome, Ok(1));
    let signature_reads = device
        .ops
        .iter()
        .filter(|op| matches!(op, PortOp::ReadByte(0x1F4) | PortOp::ReadByte(0x1F5)))
        .count();
    assert_eq!(signature_reads, 4);
    let mut device = Device::new(&[IDLE, STATUS_BUSY, IDLE, READY, IDLE], STATUS_ERROR);
    device.mid = 0x14;
    let (outcome, _) = run(bus().identify(BusDrive::Master), &mut buffer, &mut device);
    assert_eq!(outcome, Ok(1));
}

#[test]
fn a_fault_during_identify_ends_it() {
    let mut device = Device::new(&[IDLE, IDLE, IDLE, STATUS_ERROR], IDLE);
    let mut buffer = [0u8; 512];
    let (outcome, _) = run(bus().identify(BusDrive::Master), &mut buffer, &mut device);
    assert_eq!(outcome, Err(AtaError::DeviceFault));
}

#[test]
fn identity_is_decoded_from_the_sector() {
    let mut sector = [0u8; 512];
    sector[0] = 0x40;
    sector[1] = 0x04;
    sector[83] = 0x00;
    sector[84] = 0x04;
    sector[120..124].copy_from_slice(&0x0012_3456u32.to_le_bytes());
    let identity = DriveIdentity::new(sector);
    assert_eq!(identity.general_config, 0x0440);
    assert_eq!(identity.model_number, [0u8; 20]);
    assert!(identity.support_lba48);
    assert_eq!(identity.user_adressable_sectors, 0x0012_3456);
    sector[84] = 0xFB;
    sector[83] = 0xFF;
    assert!(!DriveIdentity::new(sector).support_lba48);
}

#[test]
fn bits_are_counted_from_the_low_end() {
    assert!(get_bit_u16(0x0001, 0));
    assert!(!get_bit_u16(0x0001, 1));
    assert!(get_bit_u16(0x8000, 15));
    assert!(get_bit_u16(0x0400, 10));
    assert!(!get_bit_u16(0xFBFF, 10));
}
