use hyntix::config::{SCSI_MAX_TRANSFER_SIZE, SCSI_MIN_TRANSFER_SIZE};
use hyntix::error::Error;
use hyntix::mass_storage::{
    begin_command, cbw_sent, data_moved, CommandAction, CommandPhase, InitAction, InitStage,
    UsbMassStorage, MAX_RETRIES,
};
use hyntix::native::NativeUsbBackend;
use hyntix::scsi::{ScsiRead10, ScsiTestUnitReady};

fn device(max: usize) -> UsbMassStorage {
    UsbMassStorage::new_native(NativeUsbBackend::new(-1, 0, 0x81, 0x02), 0, max)
}

fn csw(tag: u32, status: u8) -> [u8; 13] {
    let mut b = [0u8; 13];
    b[0..4].copy_from_slice(&[0x55, 0x53, 0x42, 0x53]);
    b[4..8].copy_from_slice(&tag.to_le_bytes());
    b[12] = status;
    b
}

#[test]
fn tags_count_up_from_one() {
    let mut d = device(SCSI_MAX_TRANSFER_SIZE);
    assert_eq!(d.next_tag(), 1);
    assert_eq!(d.next_tag(), 2);
    assert_eq!(d.block_size(), 512);
    assert_eq!(d.block_count(), 0);
}

#[test]
fn failed_commands_halve_transfer_size_to_floor() {
    let mut d = device(SCSI_MAX_TRANSFER_SIZE);
    let mut sizes = vec![];
    for _ in 0..5 {
        d.reduce_max_transfer_size();
        sizes.push(d.max_transfer_size());
    }
    assert_eq!(sizes, vec![2097152, 1048576, 524288, 524288, 524288]);
    assert_eq!(SCSI_MIN_TRANSFER_SIZE, 524288);
}

#[test]
fn read_command_phases() {
    let mut d = device(SCSI_MAX_TRANSFER_SIZE);
    let tag = d.next_tag();
    let cbw = ScsiRead10::cbw(tag, 0, 100, 2, 512);
    let mut t = begin_command(&cbw, Some(1024));
    assert_eq!(t.phase, CommandPhase::SendCbw);
    match cbw_sent(&mut t, 30) {
        Err(Error::UsbError(m)) => assert_eq!(m, "CBW write incomplete: 30 != 31"),
        other => panic!("unexpected {:?}", other),
    }
    let mut t = begin_command(&cbw, Some(1024));
    assert_eq!(cbw_sent(&mut t, 31).unwrap(), CommandAction::DataIn { offset: 0 });
    assert_eq!(data_moved(&mut t, 512), CommandAction::DataIn { offset: 512 });
    assert_eq!(data_moved(&mut t, 512), CommandAction::ReceiveCsw);
    assert_eq!(t.phase, CommandPhase::ReceiveCsw);
    assert!(d.csw_received(&t, &csw(tag, 0), 13).is_ok());
}

#[test]
fn short_data_phase_ends_early() {
    let cbw = ScsiRead10::cbw(7, 0, 0, 4, 512);
    let mut t = begin_command(&cbw, Some(2048));
    cbw_sent(&mut t, 31).unwrap();
    assert_eq!(data_moved(&mut t, 100), CommandAction::DataIn { offset: 100 });
    assert_eq!(data_moved(&mut t, 0), CommandAction::ReceiveCsw);
    assert_eq!(t.transferred, 100);
}

#[test]
fn command_without_data_goes_to_status() {
    let cbw = ScsiTestUnitReady::cbw(3, 0);
    let mut t = begin_command(&cbw, None);
    assert_eq!(cbw_sent(&mut t, 31).unwrap(), CommandAction::ReceiveCsw);
}

#[test]
fn status_errors() {
    let mut d = device(SCSI_MAX_TRANSFER_SIZE);
    let cbw = ScsiTestUnitReady::cbw(5, 0);
    let mut t = begin_command(&cbw, None);
    cbw_sent(&mut t, 31).unwrap();
    match d.csw_received(&t, &csw(5, 0), 12) {
        Err(Error::UsbError(m)) => assert_eq!(m, "CSW read incomplete: 12 != 13"),
        other => panic!("unexpected {:?}", other),
    }
    match d.csw_received(&t, &csw(6, 0), 13) {
        Err(Error::UsbError(m)) => assert_eq!(m, "CSW tag mismatch: 6 != 5"),
        other => panic!("unexpected {:?}", other),
    }
    match d.csw_received(&t, &csw(5, 2), 13) {
        Err(Error::UsbError(m)) => assert_eq!(m, "SCSI phase error - device reset required"),
        other => panic!("unexpected {:?}", other),
    }
    assert_eq!(d.max_transfer_size(), SCSI_MAX_TRANSFER_SIZE);
    match d.csw_received(&t, &csw(5, 1), 13) {
        Err(Error::UsbError(m)) => assert_eq!(m, "SCSI command failed"),
        other => panic!("unexpected {:?}", other),
    }
    assert_eq!(d.max_transfer_size(), SCSI_MAX_TRANSFER_SIZE / 2);
}

#[test]
fn initialisation_sequence() {
    let mut d = device(SCSI_MAX_TRANSFER_SIZE);
    let mut stage = InitStage::Inquiry;
    let cmd = d.init_command(stage);
    assert_eq!(cmd.read_len, 36);
    assert_eq!(cmd.cbw.command_block[0], 0x12);
    assert_eq!(d.init_step(&mut stage, Ok(()), &[0u8; 36]).unwrap(), InitAction::Continue);
    assert_eq!(stage, InitStage::TestUnitReady(0));
    let cmd = d.init_command(stage);
    assert_eq!(cmd.read_len, 0);
    assert_eq!(
        d.init_step(&mut stage, Err(Error::UsbError("not ready".to_string())), &[]).unwrap(),
        InitAction::RetryAfterDelay
    );
    assert_eq!(stage, InitStage::TestUnitReady(1));
    assert_eq!(d.init_step(&mut stage, Ok(()), &[]).unwrap(), InitAction::Continue);
    assert_eq!(stage, InitStage::ReadCapacity);
    let cmd = d.init_command(stage);
    assert_eq!(cmd.read_len, 8);
    let data = [0x00, 0x00, 0x0F, 0xFF, 0x00, 0x00, 0x02, 0x00];
    assert_eq!(d.init_step(&mut stage, Ok(()), &data).unwrap(), InitAction::Done);
    assert_eq!(d.block_count(), 4096);
    assert_eq!(d.block_size(), 512);
    assert_eq!(d.capacity(), 4096 * 512);
}

#[test]
fn test_unit_ready_gives_up_after_retries() {
    let mut d = device(SCSI_MAX_TRANSFER_SIZE);
    let mut stage = InitStage::TestUnitReady(MAX_RETRIES - 1);
    match d.init_step(&mut stage, Err(Error::UsbError("not ready".to_string())), &[]) {
        Err(Error::UsbError(m)) => assert_eq!(m, "not ready"),
        other => panic!("unexpected {:?}", other),
    }
    let mut stage = InitStage::ReadCapacity;
    match d.init_step(&mut stage, Ok(()), &[0u8; 4]) {
        Err(Error::UsbError(m)) => assert_eq!(m, "Failed to parse READ CAPACITY response"),
        other => panic!("unexpected {:?}", other),
    }
}

#[test]
fn block_transfer_tiles_the_buffer() {
    // 1 MiB transfers of 512-byte blocks: 2048 blocks per command.
    let mut d = device(1048576);
    match d.write_blocks(10, 1000) {
        Err(Error::UsbError(m)) => assert_eq!(m, "Buffer size must be multiple of block size"),
        other => panic!("unexpected {:?}", other),
    }
    let mut bt = d.write_blocks(10, 5000 * 512).unwrap();
    let mut commands = vec![];
    while let Some(cmd) = d.next_block_command(&bt) {
        commands.push((cmd.offset, cmd.bytes, cmd.blocks, cmd.cbw.command_block[0]));
        let lba = u32::from_be_bytes([
            cmd.cbw.command_block[2],
            cmd.cbw.command_block[3],
            cmd.cbw.command_block[4],
            cmd.cbw.command_block[5],
        ]);
        assert_eq!(lba as u64, 10 + cmd.offset as u64 / 512);
        assert_eq!(cmd.cbw.data_transfer_length as usize, cmd.bytes);
        bt.advance(&cmd);
        assert_eq!(bt.progress(1000), 1000 + (cmd.offset + cmd.bytes) as u64);
    }
    assert_eq!(
        commands,
        vec![
            (0, 2048 * 512, 2048, 0x2A),
            (2048 * 512, 2048 * 512, 2048, 0x2A),
            (4096 * 512, 904 * 512, 904, 0x2A),
        ]
    );
    let rt = d.read_blocks(0, 512).unwrap();
    let cmd = d.next_block_command(&rt).unwrap();
    assert_eq!(cmd.cbw.command_block[0], 0x28);
    assert_eq!(cmd.cbw.flags, 0x80);
}

#[test]
fn block_plans_need_no_transfer_size_to_refuse_or_to_do_nothing() {
    // A transfer size below one block: a partial buffer is still refused,
    // and an empty one is planned with nothing to send.
    let mut d = device(100);
    match d.read_blocks(0, 700) {
        Err(Error::UsbError(m)) => assert_eq!(m, "Buffer size must be multiple of block size"),
        other => panic!("unexpected {:?}", other),
    }
    let bt = d.read_blocks(0, 0).unwrap();
    assert!(d.next_block_command(&bt).is_none());
}

#[test]
fn malformed_status_is_refused_with_its_parse_error() {
    let mut d = device(SCSI_MAX_TRANSFER_SIZE);
    let cbw = ScsiTestUnitReady::cbw(5, 0);
    let mut t = begin_command(&cbw, None);
    cbw_sent(&mut t, 31).unwrap();
    let mut bad = csw(5, 1);
    bad[0] = 0;
    match d.csw_received(&t, &bad, 13) {
        Err(Error::UsbError(m)) => assert_eq!(m, "Invalid CSW signature: 0x53425300"),
        other => panic!("unexpected {:?}", other),
    }
    match d.csw_received(&t, &csw(5, 7), 13) {
        Err(Error::UsbError(m)) => assert_eq!(m, "Invalid CSW status: 7"),
        other => panic!("unexpected {:?}", other),
    }
    assert_eq!(d.max_transfer_size(), SCSI_MAX_TRANSFER_SIZE);
}
