use hyntix::disk::DiskWrite;
use hyntix::fat_entries::{
    create_dir_entry, create_dir_entry_raw, create_lfn_entries, generate_short_name, sfn_checksum,
    FileAttributes,
};
use hyntix::fat_file::BATCH_SIZE;
use hyntix::fat_format::{Fat32BootSector, Fat32Formatter, FAT32_EOC};
use hyntix::fat_writer::{apply_fat_updates, Fat32Writer};

const OFFSET: u64 = 1048576;
const SIZE: u64 = 64 * 1024 * 1024;
const DATA_START: u64 = OFFSET + 32 * 512 + 2 * 1025 * 512;

fn writer() -> Fat32Writer {
    let formatter = Fat32Formatter::new(OFFSET, SIZE, "BOOTABLE").unwrap();
    let w = Fat32Writer::new(formatter);
    assert!(w.layout_fits());
    w
}

#[test]
fn boot_sector_geometry() {
    let bs = Fat32BootSector::new(SIZE, "BOOTABLE").unwrap();
    assert_eq!(bs.sectors_per_cluster, 1);
    assert_eq!(bs.reserved_sectors, 32);
    assert_eq!(bs.fat_count, 2);
    assert_eq!(bs.total_sectors, 131072);
    assert_eq!(bs.sectors_per_fat, 1025);
    assert_eq!(&bs.volume_label, b"BOOTABLE   ");
    assert_eq!(bs.data_area_offset(OFFSET), DATA_START);
    assert_eq!(bs.cluster_offset(OFFSET, 2), DATA_START);
    assert_eq!(bs.cluster_offset(OFFSET, 5), DATA_START + 3 * 512);
    assert_eq!(bs.bytes_per_cluster(), 512);
    assert_eq!(bs.total_clusters(), (131072 - 32 - 2 * 1025) as u32);
    let big = Fat32BootSector::new(16 * 1024 * 1024 * 1024, "X").unwrap();
    assert_eq!(big.sectors_per_cluster, 64);
    let huge = Fat32BootSector::new(64 * 1024 * 1024 * 1024, "X").unwrap();
    assert_eq!(huge.sectors_per_cluster, 64);
}

#[test]
fn cluster_size_follows_the_table_where_it_gives_fat32() {
    let mb: u64 = 1024 * 1024;
    let spc = |size: u64| Fat32BootSector::new(size, "X").unwrap().sectors_per_cluster;
    assert_eq!(spc(64 * mb), 1);
    assert_eq!(spc(100 * mb), 2);
    assert_eq!(spc(200 * mb), 4);
    assert_eq!(spc(2048 * mb), 32);
    assert_eq!(spc(8192 * mb), 32);
    assert_eq!(spc(16384 * mb), 64);
    // just above a step the table leaves too few clusters for FAT32
    assert_eq!(spc(64 * mb + 51200), 1);
    assert_eq!(spc(257 * mb), 1);
    assert_eq!(spc(300 * mb), 8);
    assert_eq!(spc(1024 * mb), 8);
}

#[test]
fn gigabyte_volume_is_fat32() {
    for size in [(1u64 << 30) - (1 << 20), 1 << 30, 511 << 20, 8 << 30, (8 << 30) + 512, 32 << 30, 100 << 30] {
        let bs = Fat32BootSector::new(size, "X").unwrap();
        let clusters = bs.total_clusters();
        assert!(clusters >= 65525, "{} bytes: {} clusters", size, clusters);
        assert!(clusters <= 268435445);
    }
    assert_eq!(Fat32BootSector::new(1 << 30, "X").unwrap().sectors_per_cluster, 8);
}

#[test]
fn boot_sector_bytes() {
    let bs = Fat32BootSector::new(SIZE, "BOOTABLE").unwrap();
    let b = bs.boot_sector_bytes();
    assert_eq!(b.len(), 512);
    assert_eq!(&b[0..3], &[0xEB, 0x58, 0x90]);
    assert_eq!(&b[3..11], b"MSDOS5.0");
    assert_eq!(&b[11..13], &[0x00, 0x02]);
    assert_eq!(b[13], 1);
    assert_eq!(&b[510..512], &[0x55, 0xAA]);
    let fsinfo = bs.fsinfo_sector_bytes();
    assert_eq!(&fsinfo[0..4], &[0x52, 0x52, 0x61, 0x41]);
}

#[test]
fn formatter_allocates_in_order() {
    let mut f = Fat32Formatter::new(OFFSET, SIZE, "BOOTABLE").unwrap();
    assert_eq!(f.allocate_cluster(), 3);
    assert_eq!(f.allocate_cluster(), 4);
    assert_eq!(f.next_cluster(), 5);
}

#[test]
fn short_names() {
    assert_eq!(generate_short_name("readme.txt"), (*b"README  TXT", false));
    assert_eq!(generate_short_name("bootmgr"), (*b"BOOTMGR    ", false));
    assert_eq!(generate_short_name("install.wim"), (*b"INSTALL WIM", false));
    let (sfn, lfn) = generate_short_name("a very long file name.json");
    assert!(lfn);
    assert_eq!(&sfn, b"AVERYLONJSO");
    let (_, lfn) = generate_short_name("x+y.txt");
    assert!(lfn);
}

#[test]
fn short_entry_layout() {
    let e = create_dir_entry_raw(b"README  TXT", 0x00012345, FileAttributes::archive(), 1000);
    assert_eq!(&e[0..11], b"README  TXT");
    assert_eq!(e[11], 0x20);
    assert_eq!(&e[20..22], &[0x01, 0x00]);
    assert_eq!(&e[26..28], &[0x45, 0x23]);
    assert_eq!(&e[28..32], &[0xE8, 0x03, 0x00, 0x00]);
    let dot = create_dir_entry(".", 7, FileAttributes::directory(), 0);
    assert_eq!(&dot[0..11], b".          ");
    let dotdot = create_dir_entry("..", 0, FileAttributes::directory(), 0);
    assert_eq!(&dotdot[0..11], b"..         ");
}

#[test]
fn long_name_entries() {
    let entries = create_lfn_entries("Windows Setup.exe", 9, FileAttributes::archive(), 42);
    assert_eq!(entries.len(), 3);
    let sfn = entries[2];
    let mut sfn_name = [0u8; 11];
    sfn_name.copy_from_slice(&sfn[0..11]);
    let checksum = sfn_checksum(&sfn_name);
    assert_eq!(entries[0][0], 0x42);
    assert_eq!(entries[1][0], 0x01);
    assert_eq!(entries[0][11], 0x0F);
    assert_eq!(entries[0][13], checksum);
    assert_eq!(entries[1][13], checksum);
    assert_eq!(&entries[1][1..3], &[b'W', 0]);
    assert_eq!(&entries[0][1..3], &[b'.', 0]);
    assert_eq!(&entries[0][3..5], &[b'e', 0]);
    assert_eq!(&entries[0][7..9], &[b'e', 0]);
    assert_eq!(&entries[0][9..11], &[0, 0]);
    assert_eq!(&entries[0][14..16], &[0xFF, 0xFF]);
    assert_eq!(&sfn[0..11], b"WINDOWSSEXE");
    let short = create_lfn_entries("setup.exe", 0, FileAttributes::archive(), 0);
    assert_eq!(short.len(), 1);
    assert_eq!(&short[0][0..11], b"SETUP   EXE");
}

#[test]
fn long_name_is_normalized_and_utf16() {
    let entries = create_lfn_entries("cafe\u{301}.txt", 3, FileAttributes::archive(), 1);
    assert_eq!(entries.len(), 2);
    assert_eq!(&entries[0][7..9], &[0xE9, 0x00]);
    assert_eq!(&entries[0][9..11], &[b'.', 0]);
}

#[test]
fn long_name_outside_the_basic_plane_takes_a_surrogate_pair() {
    // U+1F600 is 0xD83D 0xDE00 in UTF-16
    let entries = create_lfn_entries("\u{1F600}.txt", 3, FileAttributes::archive(), 1);
    assert_eq!(entries.len(), 2);
    assert_eq!(&entries[0][1..3], &[0x3D, 0xD8]);
    assert_eq!(&entries[0][3..5], &[0x00, 0xDE]);
    assert_eq!(&entries[0][5..7], &[b'.', 0]);
}

#[test]
fn allocations_keep_counting_up() {
    let mut f = Fat32Formatter::new(OFFSET, SIZE, "BOOTABLE").unwrap();
    let got: Vec<u32> = (0..5).map(|_| f.allocate_cluster()).collect();
    assert_eq!(got, vec![3, 4, 5, 6, 7]);
}

#[test]
fn checksum_known_value() {
    let mut sum: u8 = 0;
    for b in b"README  TXT" {
        sum = sum.rotate_right(1).wrapping_add(*b);
    }
    assert_eq!(sfn_checksum(b"README  TXT"), sum);
}

#[test]
fn create_directory_layout() {
    let mut w = writer();
    let (cluster, write) = w.create_directory("sources", 2).unwrap();
    assert_eq!(cluster, 3);
    match write {
        DiskWrite::Bytes { offset, data } => {
            assert_eq!(offset, DATA_START + 512);
            assert_eq!(data.len(), 512);
            assert_eq!(&data[0..11], b".          ");
            assert_eq!(data[11], 0x10);
            assert_eq!(&data[26..28], &[3, 0]);
            assert_eq!(&data[32..43], b"..         ");
            assert_eq!(&data[58..60], &[0, 0]);
            assert!(data[64..].iter().all(|b| *b == 0));
        }
        _ => panic!("expected bytes"),
    }
    let (sub, write) = w.create_directory("boot", 3).unwrap();
    assert_eq!(sub, 4);
    match write {
        DiskWrite::Bytes { data, .. } => assert_eq!(&data[58..60], &[3, 0]),
        _ => panic!("expected bytes"),
    }
}

#[test]
fn flush_places_entries_and_patches_fat() {
    let mut w = writer();
    let (sources, _) = w.create_directory("sources", 2).unwrap();
    assert_eq!(w.write_empty_file("empty.txt", sources).unwrap(), 0);
    let flush = w.flush_fat().unwrap();
    assert_eq!(flush.dir_writes.len(), 2);
    match &flush.dir_writes[0] {
        DiskWrite::Bytes { offset, data } => {
            assert_eq!(*offset, DATA_START);
            assert_eq!(&data[0..11], b"SOURCES    ");
        }
        _ => panic!("expected bytes"),
    }
    match &flush.dir_writes[1] {
        DiskWrite::Bytes { offset, data } => {
            assert_eq!(*offset, DATA_START + 512 + 64);
            assert_eq!(&data[0..11], b"EMPTY   TXT");
        }
        _ => panic!("expected bytes"),
    }
    assert_eq!(flush.fat_patches.len(), 2);
    assert_eq!(flush.fat_patches[0].offset, OFFSET + 32 * 512);
    assert_eq!(flush.fat_patches[1].offset, OFFSET + 32 * 512 + 1025 * 512);
    assert_eq!(flush.fat_patches[0].updates, vec![(12usize, FAT32_EOC)]);
    let again = w.flush_fat().unwrap();
    assert!(again.dir_writes.is_empty());
    assert!(again.fat_patches.is_empty());
}

#[test]
fn full_directory_gets_a_new_cluster() {
    let mut w = writer();
    for i in 0..17 {
        let name = format!("F{}.TXT", i);
        w.write_empty_file(&name, 2).unwrap();
    }
    let flush = w.flush_fat().unwrap();
    assert_eq!(flush.dir_writes.len(), 18);
    match &flush.dir_writes[16] {
        DiskWrite::Zeros { offset, len } => {
            assert_eq!(*offset, DATA_START + 512);
            assert_eq!(*len, 512);
        }
        _ => panic!("expected a fresh cluster"),
    }
    match &flush.dir_writes[17] {
        DiskWrite::Bytes { offset, .. } => assert_eq!(*offset, DATA_START + 512),
        _ => panic!("expected bytes"),
    }
    assert_eq!(flush.fat_patches[0].updates, vec![(8usize, 3u32), (12usize, FAT32_EOC)]);
}

#[test]
fn fat_updates_last_link_wins() {
    let mut sector = vec![0xAAu8; 512];
    apply_fat_updates(&mut sector, &vec![(12, 5), (16, 6), (12, FAT32_EOC)]);
    assert_eq!(&sector[12..16], &[0xFF, 0xFF, 0xFF, 0x0F]);
    assert_eq!(&sector[16..20], &[6, 0, 0, 0]);
    assert_eq!(&sector[8..12], &[0xAA; 4]);
    assert_eq!(&sector[20..24], &[0xAA; 4]);
}

#[test]
fn file_writer_batches_and_chains() {
    let w = writer();
    let mut f = w.open_file_writer("data.bin", 2, 2048);
    assert_eq!(f.first_cluster(), 3);
    let first = f.write(&[7u8; 1000]);
    assert!(first.is_empty());
    let (writes, status) = f.flush();
    assert!(status.is_ok());
    assert_eq!(writes.len(), 1);
    match &writes[0] {
        DiskWrite::Bytes { offset, data } => {
            assert_eq!(*offset, DATA_START + 512);
            assert_eq!(data.len(), 1000);
        }
        _ => panic!("expected bytes"),
    }
    assert_eq!(f.bytes_written(), 1000);
    assert!(f.needs_flush_on_drop(false));
    assert!(!f.needs_flush_on_drop(true));
    let mut w = f.finish();
    let flush = w.flush_fat().unwrap();
    assert_eq!(flush.fat_patches[0].updates, vec![(12usize, 4u32), (16, 5), (20, FAT32_EOC)]);
    match flush.dir_writes.last().unwrap() {
        DiskWrite::Bytes { data, .. } => {
            assert_eq!(&data[0..11], b"DATA    BIN");
            assert_eq!(&data[28..32], &[0x00, 0x08, 0, 0]);
        }
        _ => panic!("expected bytes"),
    }
}

#[test]
fn file_writer_direct_batches() {
    let w = writer();
    let mut f = w.open_file_writer("big.bin", 2, (BATCH_SIZE * 2) as u64);
    let data = vec![1u8; BATCH_SIZE + 100];
    let writes = f.write(&data);
    assert_eq!(writes.len(), 1);
    match &writes[0] {
        DiskWrite::Bytes { offset, data } => {
            assert_eq!(*offset, DATA_START + 512);
            assert_eq!(data.len(), BATCH_SIZE);
        }
        _ => panic!("expected bytes"),
    }
    assert_eq!(f.bytes_written(), BATCH_SIZE as u64);
}

#[test]
fn fat_covers_every_cluster() {
    for size in [40u64 << 20, 100 << 20, 200 << 20, 4 << 30, 32 << 30] {
        let bs = Fat32BootSector::new(size, "TEST").unwrap();
        assert!(bs.sectors_per_fat as u64 * 128 >= bs.total_clusters() as u64 + 2);
    }
}

#[test]
fn volume_serial_from_clock() {
    let bs = Fat32BootSector::with_clock(100 << 20, "SERIAL", Some(0x1_2345_0007)).unwrap();
    assert_eq!(bs.volume_serial, 0x2345_0007);
    let bs = Fat32BootSector::with_clock(100 << 20, "SERIAL", None).unwrap();
    assert_eq!(bs.volume_serial, 0x1234_5678);
    assert_eq!(&bs.volume_label, b"SERIAL     ");
}

#[test]
fn layout_fits_only_before_entries() {
    let mut w = writer();
    assert!(w.layout_fits());
    w.create_directory("BOOT", 2).unwrap();
    assert!(!w.layout_fits());
}

#[test]
fn later_flush_continues_after_spilled_entries() {
    let mut w = writer();
    for i in 0..17 {
        let name = format!("F{}.TXT", i);
        w.write_empty_file(&name, 2).unwrap();
    }
    w.flush_fat().unwrap();
    w.write_empty_file("LATE.TXT", 2).unwrap();
    let flush = w.flush_fat().unwrap();
    assert_eq!(flush.dir_writes.len(), 1);
    match &flush.dir_writes[0] {
        DiskWrite::Bytes { offset, data } => {
            assert_eq!(*offset, DATA_START + 512 + 32);
            assert_eq!(&data[0..11], b"LATE    TXT");
        }
        _ => panic!("expected bytes"),
    }
    assert!(flush.fat_patches.is_empty());
}
