use hyntix::disk::DiskWrite;
use hyntix::error::Error;
use hyntix::gpt::{gpt_crc32, GptTable};

#[test]
fn crc32_known_value() {
    assert_eq!(gpt_crc32(b"123456789"), 0xCBF43926);
    assert_eq!(gpt_crc32(b""), 0);
}

#[test]
fn gpt_too_small() {
    match GptTable::new_with_esp(100 * 1024 * 1024) {
        Err(Error::DeviceTooSmall { required, available }) => {
            assert_eq!(required, 512 * 1024 * 1024);
            assert_eq!(available, 100 * 1024 * 1024);
        }
        _ => panic!("expected DeviceTooSmall"),
    }
}

#[test]
fn gpt_single_partition() {
    let size: u64 = 8 * 1024 * 1024 * 1024;
    let t = GptTable::new_with_esp(size).unwrap();
    assert_eq!(t.partitions.len(), 1);
    let p = &t.partitions[0];
    assert_eq!(p.start_lba, 2048);
    assert_eq!(p.end_lba, size / 512 - 34);
    assert_eq!(p.name, "Microsoft Basic Data");
    assert_eq!(p.partition_guid[6] & 0xF0, 0x40);
    assert_eq!(p.partition_guid[8] & 0xC0, 0x80);
    assert_eq!(t.esp_offset(), 2048 * 512);
    assert_eq!(t.esp_size(), (size / 512 - 34 - 2048 + 1) * 512);
}

#[test]
fn gpt_writes() {
    let size: u64 = 1024 * 1024 * 1024;
    let t = GptTable::new_with_esp(size).unwrap();
    let writes = t.disk_writes();
    assert_eq!(writes.len(), 6);
    match &writes[0] {
        DiskWrite::Bytes { offset, data } => {
            assert_eq!(*offset, 0);
            assert_eq!(data.len(), 512);
            assert_eq!(data[450], 0xEE);
            assert_eq!(&data[510..512], &[0x55, 0xAA]);
        }
        _ => panic!("expected the protective MBR"),
    }
    let entries = t.partition_entries_bytes();
    assert_eq!(entries.len(), 128 * 128);
    let crc = gpt_crc32(&entries);
    let header = t.gpt_header_bytes(1, size / 512 - 1, 2, crc);
    assert_eq!(&header[0..8], b"EFI PART");
    assert_eq!(&header[88..92], &crc.to_le_bytes());
    let mut zeroed = header.clone();
    zeroed[16..20].copy_from_slice(&[0, 0, 0, 0]);
    assert_eq!(gpt_crc32(&zeroed[0..92]), u32::from_le_bytes([header[16], header[17], header[18], header[19]]));
}

#[test]
fn headers_check_themselves_and_their_entries() {
    let t = GptTable::new_with_esp(1024 * 1024 * 1024).unwrap();
    let writes = t.disk_writes();
    let bytes = |w: &DiskWrite| match w {
        DiskWrite::Bytes { offset, data } => (*offset, data.clone()),
        DiskWrite::Zeros { .. } => panic!("unexpected zero run"),
    };
    let (_, entries) = bytes(&writes[2]);
    let entries_crc = gpt_crc32(&entries).to_le_bytes();
    let total = 1024u64 * 1024 * 1024 / 512;
    for (i, (lba, other)) in [(3usize, (1u64, total - 1)), (5, (total - 1, 1u64))] {
        let (offset, h) = bytes(&writes[i]);
        assert_eq!(offset, lba * 512);
        assert_eq!(h.len(), 512);
        let mut zeroed = h[..92].to_vec();
        zeroed[16..20].copy_from_slice(&[0, 0, 0, 0]);
        assert_eq!(&h[16..20], &gpt_crc32(&zeroed).to_le_bytes());
        assert_eq!(&h[88..92], &entries_crc);
        assert_eq!(&h[24..32], &lba.to_le_bytes());
        assert_eq!(&h[32..40], &other.to_le_bytes());
    }
}

#[test]
fn table_with_given_guids() {
    let t = GptTable::with_guids(1 << 30, [7u8; 16], [9u8; 16]).unwrap();
    assert_eq!(t.disk_guid, [7u8; 16]);
    assert_eq!(t.partitions[0].partition_guid, [9u8; 16]);
    assert_eq!(t.partitions[0].end_lba, (1u64 << 30) / 512 - 34);
    match GptTable::with_guids(1 << 20, [0; 16], [0; 16]) {
        Err(Error::DeviceTooSmall { available, .. }) => assert_eq!(available, 1 << 20),
        _ => panic!("small device accepted"),
    }
    let r = GptTable::new_with_esp(1 << 30).unwrap();
    assert_eq!(r.disk_guid[6] & 0xF0, 0x40);
    assert_eq!(r.partitions[0].partition_guid[8] & 0xC0, 0x80);
}
