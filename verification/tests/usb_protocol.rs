use hyntix::cbw::{CommandBlockWrapper, Direction};
use hyntix::csw::{CommandStatusWrapper, CswStatus, CSW_SIGNATURE};
use hyntix::error::Error;
use hyntix::native::{AimdState, BulkEvent, BulkStep, NativeUsbBackend};
use hyntix::scsi::{ScsiRead10, ScsiReadCapacity, ScsiWrite10, ScsiInquiry, ScsiTestUnitReady};

#[test]
fn test_cbw_serialize() {
    let cbw = CommandBlockWrapper::new(
        1,
        512,
        Direction::In,
        0,
        &[0x28, 0x00, 0x00, 0x00, 0x00, 0x00, 0x00, 0x00, 0x01, 0x00],
    );

    let data = cbw.serialize();

    assert_eq!(&data[0..4], &[0x55, 0x53, 0x42, 0x43]);
    assert_eq!(&data[4..8], &[0x01, 0x00, 0x00, 0x00]);
    assert_eq!(&data[8..12], &[0x00, 0x02, 0x00, 0x00]);
    assert_eq!(data[12], 0x80);
}

#[test]
fn test_csw_parse() {
    let buffer = [
        0x55, 0x53, 0x42, 0x53,
        0x01, 0x00, 0x00, 0x00,
        0x00, 0x00, 0x00, 0x00,
        0x00,
    ];

    let csw = CommandStatusWrapper::parse(&buffer).unwrap();

    assert_eq!(csw.signature, CSW_SIGNATURE);
    assert_eq!(csw.tag, 1);
    assert_eq!(csw.data_residue, 0);
    assert_eq!(csw.status, CswStatus::Passed);
    assert!(csw.is_success());
}

#[test]
fn cbw_serialize_full_layout() {
    let cbw = CommandBlockWrapper::new(0x01020304, 4096, Direction::Out, 2, &[0x2A, 1, 2, 3]);
    let data = cbw.serialize();
    assert_eq!(data.len(), 31);
    assert_eq!(&data[4..8], &[0x04, 0x03, 0x02, 0x01]);
    assert_eq!(&data[8..12], &[0x00, 0x10, 0x00, 0x00]);
    assert_eq!(data[12], 0x00);
    assert_eq!(data[13], 2);
    assert_eq!(data[14], 4);
    assert_eq!(&data[15..19], &[0x2A, 1, 2, 3]);
    assert!(data[19..31].iter().all(|b| *b == 0));
}

#[test]
fn csw_errors() {
    match CommandStatusWrapper::parse(&[0u8; 12]) {
        Err(Error::UsbError(m)) => assert_eq!(m, "CSW buffer too small: 12 < 13"),
        _ => panic!("expected a size error"),
    }
    let bad_sig = [0x55, 0x53, 0x42, 0x54, 1, 0, 0, 0, 0, 0, 0, 0, 0];
    match CommandStatusWrapper::parse(&bad_sig) {
        Err(Error::UsbError(m)) => assert_eq!(m, "Invalid CSW signature: 0x54425355"),
        _ => panic!("expected a signature error"),
    }
    let bad_status = [0x55, 0x53, 0x42, 0x53, 1, 0, 0, 0, 0, 0, 0, 0, 7];
    match CommandStatusWrapper::parse(&bad_status) {
        Err(Error::UsbError(m)) => assert_eq!(m, "Invalid CSW status: 7"),
        _ => panic!("expected a status error"),
    }
    let failed = [0x55, 0x53, 0x42, 0x53, 9, 0, 0, 0, 0x10, 0, 0, 0, 1];
    let csw = CommandStatusWrapper::parse(&failed).unwrap();
    assert_eq!(csw.status, CswStatus::Failed);
    assert_eq!(csw.data_residue, 16);
    assert!(!csw.is_success());
}

#[test]
fn scsi_commands() {
    assert_eq!(ScsiRead10::command(0x01020304, 8), [0x28, 0, 1, 2, 3, 4, 0, 0, 8, 0]);
    assert_eq!(ScsiWrite10::command(5, 0x0102), [0x2A, 0, 0, 0, 0, 5, 0, 1, 2, 0]);
    assert_eq!(ScsiInquiry::command(36), [0x12, 0, 0, 0, 36, 0]);
    assert_eq!(ScsiTestUnitReady::command(), [0, 0, 0, 0, 0, 0]);
    let cbw = ScsiWrite10::cbw(7, 0, 100, 4, 512);
    let data = cbw.serialize();
    assert_eq!(&data[8..12], &[0x00, 0x08, 0x00, 0x00]);
    assert_eq!(data[12], 0x00);
    let cbw = ScsiRead10::cbw(7, 0, 100, 4, 512);
    assert_eq!(cbw.serialize()[12], 0x80);
}

#[test]
fn read_capacity_response() {
    let data = [0x00, 0x00, 0x0F, 0xFF, 0x00, 0x00, 0x02, 0x00];
    assert_eq!(ScsiReadCapacity::parse_response(&data), Some((4095, 512)));
    assert_eq!(ScsiReadCapacity::parse_response(&data[0..7]), None);
}

#[test]
fn aimd_halves_and_recovers() {
    let mut s = AimdState::initial();
    assert_eq!(s.chunk_size, 262144);
    assert!(s.on_enomem());
    assert_eq!(s.chunk_size, 131072);
    assert_eq!(s.enomem_floor, 262144);
    s.on_recovery();
    assert_eq!(s.chunk_size, 131072);
    for _ in 0..3 {
        assert!(s.on_enomem());
    }
    assert_eq!(s.chunk_size, 16384);
    assert!(!s.on_enomem());
    assert_eq!(s.chunk_size, 16384);
}

#[test]
fn bulk_transfer_in_chunks() {
    let mut backend = NativeUsbBackend::new(3, 0, 0x81, 0x02);
    let mut t = backend.begin_transfer(false, 600000);
    let mut done = 0usize;
    loop {
        match backend.next_step(&mut t) {
            BulkStep::Submit { offset, len } => {
                assert_eq!(offset, done);
                assert!(len <= 262144);
                backend.record(&mut t, BulkEvent::Transferred(len));
                done += len;
            }
            BulkStep::Complete(n) => {
                assert_eq!(n, 600000);
                break;
            }
            BulkStep::Fail => panic!("unexpected failure"),
        }
    }
    assert_eq!(done, 600000);
}

#[test]
fn bulk_transfer_shrinks_on_enomem() {
    let mut backend = NativeUsbBackend::new(3, 0, 0x81, 0x02);
    let mut t = backend.begin_transfer(true, 300000);
    match backend.next_step(&mut t) {
        BulkStep::Submit { len, .. } => assert_eq!(len, 262144),
        _ => panic!("expected a submission"),
    }
    backend.record(&mut t, BulkEvent::OutOfMemory);
    assert_eq!(backend.in_chunk_size(), 131072);
    match backend.next_step(&mut t) {
        BulkStep::Submit { offset, len } => {
            assert_eq!(offset, 0);
            assert_eq!(len, 131072);
        }
        _ => panic!("expected a resubmission"),
    }
    backend.record(&mut t, BulkEvent::Error);
    assert_eq!(backend.next_step(&mut t), BulkStep::Fail);
}
