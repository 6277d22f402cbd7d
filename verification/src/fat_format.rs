//! FAT32 filesystem formatter.
//!
//! Computes a FAT32 filesystem's geometry from the partition size, and the
//! exact bytes of its boot sector, FSInfo sector, the first sector of each
//! FAT, and the root directory cluster, with the offsets they go to.

use vstd::prelude::*;
use crate::bytes::{
    le16,
    le32,
    lemma_le16_read_at,
    lemma_le32_read_at,
    u16_le_at,
    u32_le_at,
    zeros,
    push_le16,
    push_le32,
    push_all,
    push_byte,
    push_zeros,
};
use crate::error::Result;
use crate::disk::{DiskWrite, WriteView};
use vstd::string::StringSliceAdditionalSpecFns;

verus! {

/// Bytes per sector (always 512 for USB drives).
pub const BYTES_PER_SECTOR: u32 = 512;

/// FAT32 media type for removable media.
pub const MEDIA_TYPE: u8 = 0xF8;

/// FAT32 end-of-chain marker.
pub const FAT32_EOC: u32 = 0x0FFFFFFF;

/// Reserved sectors before the first FAT.
pub const RESERVED_SECTORS: u16 = 32;

/// Number of FAT copies.
pub const FAT_COUNT: u8 = 2;

/// The system clock's time.
#[verifier::external_type_specification]
#[verifier::external_body]
pub struct ExSystemTime(std::time::SystemTime);

/// `SystemTime::now`: the current time. Nothing is known of the value.
#[verifier::external_body]
fn clock_now() -> (r: std::time::SystemTime) {
    std::time::SystemTime::now()
}

/// `SystemTime::duration_since(UNIX_EPOCH)` in whole seconds, or `None`
/// when `t` lies before the epoch. Nothing is known of the value.
#[verifier::external_body]
fn seconds_since_epoch(t: &std::time::SystemTime) -> (r: Option<u64>) {
    t.duration_since(std::time::UNIX_EPOCH).ok().map(|d| d.as_secs())
}

/// The volume serial number for a clock reading: the low 32 bits of the
/// seconds since the epoch, or 0x12345678 without one.
pub open spec fn serial_for(clock_secs: Option<u64>) -> u32 {
    match clock_secs {
        Some(secs) => secs as u32,
        None => 0x12345678u32,
    }
}

/// FAT32 Boot Sector and BPB.
#[derive(Debug, Clone)]
pub struct Fat32BootSector {
    /// OEM name (8 bytes).
    pub oem_name: [u8; 8],
    /// Bytes per sector.
    pub bytes_per_sector: u16,
    /// Sectors per cluster.
    pub sectors_per_cluster: u8,
    /// Reserved sector count (including boot sector).
    pub reserved_sectors: u16,
    /// Number of FAT copies.
    pub fat_count: u8,
    /// Total sectors (32-bit for FAT32).
    pub total_sectors: u32,
    /// Sectors per FAT.
    pub sectors_per_fat: u32,
    /// Root directory cluster.
    pub root_cluster: u32,
    /// FSInfo sector number.
    pub fsinfo_sector: u16,
    /// Backup boot sector location.
    pub backup_boot_sector: u16,
    /// Volume serial number.
    pub volume_serial: u32,
    /// Volume label (11 bytes).
    pub volume_label: [u8; 11],
}

/// "MSDOS5.0"
pub open spec fn oem_msdos() -> Seq<u8> {
    seq![77u8, 83, 68, 79, 83, 53, 46, 48]
}

/// "FAT32   "
pub open spec fn fat32_type_text() -> Seq<u8> {
    seq![70u8, 65, 84, 51, 50, 32, 32, 32]
}

/// "This is not a bootable disk.\r\n"
pub open spec fn not_bootable_text() -> Seq<u8> {
    seq![
        84u8, 104, 105, 115, 32, 105, 115, 32, 110, 111, 116, 32, 97, 32, 98, 111, 111, 116, 97,
        98, 108, 101, 32, 100, 105, 115, 107, 46, 13, 10,
    ]
}

/// The cluster size table by partition size: 512B clusters up to 64MB, 1KB
/// up to 128MB, 2KB up to 256MB, 16KB up to 8GB, and 32KB beyond, the cap
/// kept for UEFI compatibility.
pub open spec fn table_sectors_per_cluster(partition_size: u64) -> u8 {
    if partition_size <= 67108864 {
        1
    } else if partition_size <= 134217728 {
        2
    } else if partition_size <= 268435456 {
        4
    } else if partition_size <= 8589934592 {
        32
    } else {
        64
    }
}

/// The FAT32 table of Microsoft's FAT specification (512-byte sectors):
/// 512B clusters up to 260MB, 4KB up to 8GB; 32KB beyond, as above.
pub open spec fn recommended_sectors_per_cluster(partition_size: u64) -> u8 {
    if partition_size <= 272629760 {
        1
    } else if partition_size <= 8589934592 {
        8
    } else {
        64
    }
}

/// The data clusters of a partition laid out with `spc` sectors per
/// cluster: what is left after the reserved sectors and the two FATs.
pub open spec fn data_clusters_for(partition_size: u64, spc: int) -> int {
    let t = total_sectors_for(partition_size) as int;
    let spf = ((t - RESERVED_SECTORS) / spc + 127) / 128 + 1;
    (t - RESERVED_SECTORS - 2 * spf) / spc
}

/// Sectors per cluster for a partition size: the size table
/// (`table_sectors_per_cluster`), unless it leaves fewer than the 65525
/// clusters a FAT32 volume needs (just above the table's steps, up to about
/// 1GB), and then Microsoft's table (`recommended_sectors_per_cluster`).
/// From 260MB on this always leaves at least 65525 clusters, so that the
/// volume reads as FAT32 (see `lemma_fat32_cluster_count`).
pub open spec fn sectors_per_cluster_for(partition_size: u64) -> u8 {
    let spc = table_sectors_per_cluster(partition_size);
    if data_clusters_for(partition_size, spc as int) >= 65525 {
        spc
    } else {
        recommended_sectors_per_cluster(partition_size)
    }
}

/// The total sector count recorded for a partition (truncated to 32 bits).
pub open spec fn total_sectors_for(partition_size: u64) -> u32 {
    (partition_size / 512) as u32
}

/// Sectors per FAT: one 4-byte entry per data cluster, 128 per sector, plus
/// one.
pub open spec fn sectors_per_fat_for(partition_size: u64) -> int {
    let total = total_sectors_for(partition_size);
    let clusters = (total - RESERVED_SECTORS) / (sectors_per_cluster_for(partition_size) as int);
    (clusters + 127) / 128 + 1
}

/// The 11-byte label: the first 11 bytes of the text, padded with spaces.
pub open spec fn padded_label(text: Seq<u8>) -> Seq<u8> {
    Seq::new(11, |i: int| if i < text.len() { text[i] } else { 0x20u8 })
}

/// The geometry and names `Fat32BootSector::new` gives a partition; the
/// serial number comes from the clock and is left open.
pub open spec fn boot_sector_for(bs: Fat32BootSector, partition_size: u64, label: Seq<u8>) -> bool {
    &&& bs.oem_name@ == oem_msdos()
    &&& bs.bytes_per_sector == 512
    &&& bs.sectors_per_cluster == sectors_per_cluster_for(partition_size)
    &&& bs.reserved_sectors == 32
    &&& bs.fat_count == 2
    &&& bs.total_sectors == total_sectors_for(partition_size)
    &&& bs.sectors_per_fat == sectors_per_fat_for(partition_size)
    &&& bs.root_cluster == 2
    &&& bs.fsinfo_sector == 1
    &&& bs.backup_boot_sector == 6
    &&& bs.volume_label@ == padded_label(label)
}

/// The 512 bytes of the boot sector (also written as its backup).
pub open spec fn boot_sector_image(bs: Fat32BootSector) -> Seq<u8> {
    seq![0xEBu8, 0x58u8, 0x90u8] + bs.oem_name@ + le16(bs.bytes_per_sector) + seq![
        bs.sectors_per_cluster,
    ] + le16(bs.reserved_sectors) + seq![bs.fat_count] + le16(0) + le16(0) + seq![MEDIA_TYPE]
        + le16(0) + le16(63) + le16(255) + le32(0) + le32(bs.total_sectors) + le32(
        bs.sectors_per_fat,
    ) + le16(0) + le16(0) + le32(bs.root_cluster) + le16(bs.fsinfo_sector) + le16(
        bs.backup_boot_sector,
    ) + zeros(12) + seq![0x80u8] + seq![0u8] + seq![0x29u8] + le32(bs.volume_serial)
        + bs.volume_label@ + fat32_type_text() + not_bootable_text() + zeros(390) + seq![0x55u8]
        + seq![0xAAu8]
}

/// The boot sector reads back to its fields at the FAT32 BPB offsets: the
/// OEM name at 3, bytes per sector at 11, sectors per cluster at 13,
/// reserved sectors at 14, the FAT count at 16, the total sector count at
/// 32, sectors per FAT at 36, the root cluster at 44, the FSInfo and backup
/// boot sectors at 48 and 50, the serial at 67 and the label at 71; it is
/// 512 bytes and ends in the 0x55 0xAA signature.
pub proof fn lemma_boot_sector_reads_back(bs: Fat32BootSector)
    ensures
        ({
            let img = boot_sector_image(bs);
            &&& img.len() == 512
            &&& img.subrange(3, 11) == bs.oem_name@
            &&& u16_le_at(img, 11) == bs.bytes_per_sector
            &&& img[13] == bs.sectors_per_cluster
            &&& u16_le_at(img, 14) == bs.reserved_sectors
            &&& img[16] == bs.fat_count
            &&& u32_le_at(img, 32) == bs.total_sectors
            &&& u32_le_at(img, 36) == bs.sectors_per_fat
            &&& u32_le_at(img, 44) == bs.root_cluster
            &&& u16_le_at(img, 48) == bs.fsinfo_sector
            &&& u16_le_at(img, 50) == bs.backup_boot_sector
            &&& u32_le_at(img, 67) == bs.volume_serial
            &&& img.subrange(71, 82) == bs.volume_label@
            &&& img[510] == 0x55
            &&& img[511] == 0xAA
        }),
{
    let img = boot_sector_image(bs);
    assert(img.len() == 512);
    assert(img.subrange(3, 11) =~= bs.oem_name@);
    assert(img.subrange(11, 13) =~= le16(bs.bytes_per_sector));
    lemma_le16_read_at(img, 11, bs.bytes_per_sector);
    assert(img.subrange(14, 16) =~= le16(bs.reserved_sectors));
    lemma_le16_read_at(img, 14, bs.reserved_sectors);
    assert(img.subrange(32, 36) =~= le32(bs.total_sectors));
    lemma_le32_read_at(img, 32, bs.total_sectors);
    assert(img.subrange(36, 40) =~= le32(bs.sectors_per_fat));
    lemma_le32_read_at(img, 36, bs.sectors_per_fat);
    assert(img.subrange(44, 48) =~= le32(bs.root_cluster));
    lemma_le32_read_at(img, 44, bs.root_cluster);
    assert(img.subrange(48, 50) =~= le16(bs.fsinfo_sector));
    lemma_le16_read_at(img, 48, bs.fsinfo_sector);
    assert(img.subrange(50, 52) =~= le16(bs.backup_boot_sector));
    lemma_le16_read_at(img, 50, bs.backup_boot_sector);
    assert(img.subrange(67, 71) =~= le32(bs.volume_serial));
    lemma_le32_read_at(img, 67, bs.volume_serial);
    assert(img.subrange(71, 82) =~= bs.volume_label@);
}

/// The 512 bytes of the FSInfo sector: free count unknown, next free hint 3.
pub open spec fn fsinfo_image() -> Seq<u8> {
    le32(0x41615252) + zeros(480) + le32(0x61417272) + le32(0xFFFFFFFF) + le32(3) + zeros(12)
        + le32(0xAA550000)
}

/// The FSInfo sector reads back: lead signature 0x41615252 at 0, struct
/// signature 0x61417272 at 484, free count unknown (0xFFFFFFFF) at 488,
/// next free cluster 3 at 492 and trail signature 0xAA550000 at 508, in 512
/// bytes.
pub proof fn lemma_fsinfo_reads_back()
    ensures
        fsinfo_image().len() == 512,
        u32_le_at(fsinfo_image(), 0) == 0x41615252,
        u32_le_at(fsinfo_image(), 484) == 0x61417272,
        u32_le_at(fsinfo_image(), 488) == 0xFFFFFFFF,
        u32_le_at(fsinfo_image(), 492) == 3,
        u32_le_at(fsinfo_image(), 508) == 0xAA550000,
{
    let f = fsinfo_image();
    assert(f.len() == 512);
    assert(f.subrange(0, 4) =~= le32(0x41615252));
    lemma_le32_read_at(f, 0, 0x41615252);
    assert(f.subrange(484, 488) =~= le32(0x61417272));
    lemma_le32_read_at(f, 484, 0x61417272);
    assert(f.subrange(488, 492) =~= le32(0xFFFFFFFF));
    lemma_le32_read_at(f, 488, 0xFFFFFFFF);
    assert(f.subrange(492, 496) =~= le32(3));
    lemma_le32_read_at(f, 492, 3);
    assert(f.subrange(508, 512) =~= le32(0xAA550000));
    lemma_le32_read_at(f, 508, 0xAA550000);
}

/// The first FAT sector reads back: entry 0 holds the media descriptor
/// 0x0FFFFFF8, entry 1 0xFFFFFFFF, entry 2 (the root directory) the end of
/// its chain, every other entry is free.
pub proof fn lemma_fat_first_sector_reads_back()
    ensures
        fat_first_sector_image().len() == 512,
        u32_le_at(fat_first_sector_image(), 0) == 0x0FFFFFF8,
        u32_le_at(fat_first_sector_image(), 4) == 0xFFFFFFFF,
        u32_le_at(fat_first_sector_image(), 8) == FAT32_EOC,
        forall|j: int| 12 <= j < 512 ==> #[trigger] fat_first_sector_image()[j] == 0,
{
    let f = fat_first_sector_image();
    assert(f.subrange(0, 4) =~= le32(0x0FFFFFF8));
    lemma_le32_read_at(f, 0, 0x0FFFFFF8);
    assert(f.subrange(4, 8) =~= le32(0xFFFFFFFF));
    lemma_le32_read_at(f, 4, 0xFFFFFFFF);
    assert(f.subrange(8, 12) =~= le32(FAT32_EOC));
    lemma_le32_read_at(f, 8, FAT32_EOC);
}

/// The first sector of each FAT: the media descriptor entry, an
/// end-of-chain entry, the root directory's end-of-chain, then zeros.
pub open spec fn fat_first_sector_image() -> Seq<u8> {
    le32(0x0FFFFFF8) + le32(0xFFFFFFFF) + le32(FAT32_EOC) + zeros(500)
}

/// Where the data area starts.
pub open spec fn data_area_start(bs: Fat32BootSector, partition_offset: u64) -> int {
    partition_offset + bs.reserved_sectors * 512 + bs.fat_count * bs.sectors_per_fat * 512
}

/// Where a data cluster starts.
pub open spec fn cluster_start(bs: Fat32BootSector, partition_offset: u64, cluster: u32) -> int {
    data_area_start(bs, partition_offset) + (cluster - 2) * bs.sectors_per_cluster * 512
}

fn copy_array8(a: [u8; 8]) -> (r: [u8; 8])
    ensures
        r@ == a@,
{
    a
}

impl Fat32BootSector {
    /// Create a new FAT32 boot sector for the given partition size.
    ///
    /// The volume serial number is taken from the clock (the low 32 bits of
    /// the seconds since the epoch, or 0x12345678 without a clock).
    pub fn new(partition_size: u64, volume_label: &str) -> (r: Result<Self>)
        requires
            total_sectors_for(partition_size) >= RESERVED_SECTORS,
        ensures
            r matches Ok(bs) && boot_sector_for(bs, partition_size, volume_label.spec_bytes()),
    {
        let clock = seconds_since_epoch(&clock_now());
        Self::with_clock(partition_size, volume_label, clock)
    }

    /// The boot sector for the given partition size, label and clock
    /// reading (seconds since the epoch, if any): see `boot_sector_for` and
    /// `serial_for`.
    pub fn with_clock(partition_size: u64, volume_label: &str, clock_secs: Option<u64>) -> (r: Result<
        Self,
    >)
        requires
            total_sectors_for(partition_size) >= RESERVED_SECTORS,
        ensures
            r matches Ok(bs) && boot_sector_for(bs, partition_size, volume_label.spec_bytes())
                && bs.volume_serial == serial_for(clock_secs),
    {
        let total_sectors = (partition_size / 512) as u32;
        let table_spc: u8 = if partition_size <= 67108864 {
            1
        } else if partition_size <= 134217728 {
            2
        } else if partition_size <= 268435456 {
            4
        } else if partition_size <= 8589934592 {
            32
        } else {
            64
        };
        let data64 = total_sectors as u64 - RESERVED_SECTORS as u64;
        let table_fat = (data64 / table_spc as u64 + 127) / 128 + 1;
        let table_fits = data64 >= 2 * table_fat && (data64 - 2 * table_fat) / table_spc as u64
            >= 65525;
        proof {
            let t = total_sectors as int;
            let spf = ((t - 32) / (table_spc as int) + 127) / 128 + 1;
            assert(table_fat == spf);
            if data64 < 2 * table_fat {
                assert((t - 32 - 2 * spf) / (table_spc as int) < 0) by {
                    if table_spc == 1 {
                    } else if table_spc == 2 {
                    } else if table_spc == 4 {
                    } else if table_spc == 32 {
                    } else {
                    }
                }
            }
            assert(table_fits == (data_clusters_for(partition_size, table_spc as int) >= 65525));
        }
        let sectors_per_cluster: u8 = if table_fits {
            table_spc
        } else if partition_size <= 272629760 {
            1
        } else if partition_size <= 8589934592 {
            8
        } else {
            64
        };
        let data_sectors = total_sectors - RESERVED_SECTORS as u32;
        let cluster_count = data_sectors / sectors_per_cluster as u32;
        assert(cluster_count <= 0x7FFF_FFFF) by {
            if sectors_per_cluster == 1 {
                assert(total_sectors <= 532480);
            } else {
                vstd::arithmetic::div_mod::lemma_div_is_ordered_by_denominator(
                    data_sectors as int,
                    2,
                    sectors_per_cluster as int,
                );
            }
        }
        let sectors_per_fat = (cluster_count + 127) / 128 + 1;
        let volume_serial: u32 = match clock_secs {
            Some(secs) => secs as u32,
            None => 0x12345678,
        };
        let label_bytes = volume_label.as_bytes();
        let mut label = [0x20u8; 11];
        let copy_len: usize = if label_bytes.len() < 11 {
            label_bytes.len()
        } else {
            11
        };
        let mut i: usize = 0;
        while i < 11
            invariant
                i <= 11,
                copy_len == (if label_bytes@.len() < 11 {
                    label_bytes@.len()
                } else {
                    11
                }),
                forall|j: int|
                    0 <= j < i ==> label@[j] == (if j < label_bytes@.len() {
                        label_bytes@[j]
                    } else {
                        0x20u8
                    }),
            decreases 11 - i,
        {
            if i < copy_len {
                label[i] = label_bytes[i];
            } else {
                label[i] = 0x20;
            }
            i = i + 1;
        }
        assert(label@ =~= padded_label(volume_label.spec_bytes()));
        let oem: [u8; 8] = [77, 83, 68, 79, 83, 53, 46, 48];
        assert(oem@ =~= oem_msdos());
        Ok(
            Fat32BootSector {
                oem_name: copy_array8(oem),
                bytes_per_sector: BYTES_PER_SECTOR as u16,
                sectors_per_cluster,
                reserved_sectors: RESERVED_SECTORS,
                fat_count: FAT_COUNT,
                total_sectors,
                sectors_per_fat,
                root_cluster: 2,
                fsinfo_sector: 1,
                backup_boot_sector: 6,
                volume_serial,
                volume_label: label,
            },
        )
    }

    /// The bytes of the boot sector, written at the partition's first sector
    /// and again at the backup boot sector.
    pub fn boot_sector_bytes(&self) -> (r: Vec<u8>)
        ensures
            r@ == boot_sector_image(*self),
            r@.len() == 512,
    {
        let mut v: Vec<u8> = vec![0xEBu8, 0x58u8, 0x90u8];
        push_all(&mut v, self.oem_name.as_slice());
        push_le16(&mut v, self.bytes_per_sector);
        push_byte(&mut v, self.sectors_per_cluster);
        push_le16(&mut v, self.reserved_sectors);
        push_byte(&mut v, self.fat_count);
        push_le16(&mut v, 0);
        push_le16(&mut v, 0);
        push_byte(&mut v, MEDIA_TYPE);
        push_le16(&mut v, 0);
        push_le16(&mut v, 63);
        push_le16(&mut v, 255);
        push_le32(&mut v, 0);
        push_le32(&mut v, self.total_sectors);
        push_le32(&mut v, self.sectors_per_fat);
        push_le16(&mut v, 0);
        push_le16(&mut v, 0);
        push_le32(&mut v, self.root_cluster);
        push_le16(&mut v, self.fsinfo_sector);
        push_le16(&mut v, self.backup_boot_sector);
        push_zeros(&mut v, 12);
        push_byte(&mut v, 0x80);
        push_byte(&mut v, 0);
        push_byte(&mut v, 0x29);
        push_le32(&mut v, self.volume_serial);
        push_all(&mut v, self.volume_label.as_slice());
        let fs_type: [u8; 8] = [70, 65, 84, 51, 50, 32, 32, 32];
        assert(fs_type@ =~= fat32_type_text());
        push_all(&mut v, fs_type.as_slice());
        let message: [u8; 30] = [
            84, 104, 105, 115, 32, 105, 115, 32, 110, 111, 116, 32, 97, 32, 98, 111, 111, 116, 97,
            98, 108, 101, 32, 100, 105, 115, 107, 46, 13, 10,
        ];
        assert(message@ =~= not_bootable_text());
        push_all(&mut v, message.as_slice());
        push_zeros(&mut v, 390);
        push_byte(&mut v, 0x55);
        push_byte(&mut v, 0xAA);
        assert(v@ =~= boot_sector_image(*self));
        v
    }

    /// The bytes of the FSInfo sector.
    pub fn fsinfo_sector_bytes(&self) -> (r: Vec<u8>)
        ensures
            r@ == fsinfo_image(),
            r@.len() == 512,
    {
        let mut v: Vec<u8> = Vec::new();
        push_le32(&mut v, 0x41615252);
        push_zeros(&mut v, 480);
        push_le32(&mut v, 0x61417272);
        push_le32(&mut v, 0xFFFFFFFF);
        push_le32(&mut v, 3);
        push_zeros(&mut v, 12);
        push_le32(&mut v, 0xAA550000);
        assert(v@ =~= fsinfo_image());
        v
    }

    /// The bytes of the first sector of each FAT copy.
    pub fn fat_first_sector_bytes(&self) -> (r: Vec<u8>)
        ensures
            r@ == fat_first_sector_image(),
            r@.len() == 512,
    {
        let mut v: Vec<u8> = Vec::new();
        push_le32(&mut v, 0x0FFFFF00 | (MEDIA_TYPE as u32));
        push_le32(&mut v, 0xFFFFFFFF);
        push_le32(&mut v, FAT32_EOC);
        push_zeros(&mut v, 500);
        assert(0x0FFFFF00u32 | (MEDIA_TYPE as u32) == 0x0FFFFFF8u32) by (bit_vector);
        assert(v@ =~= fat_first_sector_image());
        v
    }

    /// Where the FSInfo sector goes.
    pub fn fsinfo_offset(&self, partition_offset: u64) -> (r: u64)
        requires
            partition_offset + self.fsinfo_sector * 512 <= u64::MAX,
        ensures
            r == partition_offset + self.fsinfo_sector * 512,
    {
        partition_offset + self.fsinfo_sector as u64 * 512
    }

    /// Where the backup boot sector goes.
    pub fn backup_boot_offset(&self, partition_offset: u64) -> (r: u64)
        requires
            partition_offset + self.backup_boot_sector * 512 <= u64::MAX,
        ensures
            r == partition_offset + self.backup_boot_sector * 512,
    {
        partition_offset + self.backup_boot_sector as u64 * 512
    }

    /// Where FAT copy `i` starts.
    pub fn fat_start(&self, partition_offset: u64, i: u8) -> (r: u64)
        requires
            partition_offset + self.reserved_sectors * 512 + i * self.sectors_per_fat * 512
                <= u64::MAX,
        ensures
            r == partition_offset + self.reserved_sectors * 512 + i * self.sectors_per_fat * 512,
    {
        proof {
            assert(i * self.sectors_per_fat * 512 >= 0) by (nonlinear_arith);
        }
        partition_offset + self.reserved_sectors as u64 * 512 + i as u64
            * self.sectors_per_fat as u64 * 512
    }

    /// Get the offset of the data area.
    pub fn data_area_offset(&self, partition_offset: u64) -> (r: u64)
        requires
            data_area_start(*self, partition_offset) <= u64::MAX,
        ensures
            r == data_area_start(*self, partition_offset),
    {
        proof {
            assert(self.fat_count * self.sectors_per_fat * 512 >= 0) by (nonlinear_arith);
        }
        partition_offset + self.reserved_sectors as u64 * 512 + self.fat_count as u64
            * self.sectors_per_fat as u64 * 512
    }

    /// Get the offset of a specific cluster (clusters are numbered from 2).
    pub fn cluster_offset(&self, partition_offset: u64, cluster: u32) -> (r: u64)
        requires
            cluster >= 2,
            cluster_start(*self, partition_offset, cluster) <= u64::MAX,
        ensures
            r == cluster_start(*self, partition_offset, cluster),
    {
        proof {
            assert(self.fat_count * self.sectors_per_fat * 512 >= 0) by (nonlinear_arith);
            assert((cluster - 2) * self.sectors_per_cluster * 512 >= 0) by (nonlinear_arith)
                requires
                    cluster >= 2,
            ;
        }
        let data_offset = self.data_area_offset(partition_offset);
        data_offset + (cluster as u64 - 2) * self.sectors_per_cluster as u64 * 512
    }

    /// Get bytes per cluster.
    pub fn bytes_per_cluster(&self) -> (r: u32)
        ensures
            r == self.sectors_per_cluster * 512,
    {
        self.sectors_per_cluster as u32 * BYTES_PER_SECTOR
    }

    /// Get total number of data clusters.
    pub fn total_clusters(&self) -> (r: u32)
        requires
            self.sectors_per_cluster > 0,
            self.reserved_sectors + self.fat_count * self.sectors_per_fat <= self.total_sectors,
        ensures
            r == (self.total_sectors - self.reserved_sectors - self.fat_count
                * self.sectors_per_fat) / (self.sectors_per_cluster as int),
    {
        proof {
            assert(self.fat_count * self.sectors_per_fat >= 0) by (nonlinear_arith);
        }
        let data_sectors = self.total_sectors - self.reserved_sectors as u32 - self.fat_count as u32
            * self.sectors_per_fat;
        data_sectors / self.sectors_per_cluster as u32
    }
}

/// FAT32 filesystem formatter.
pub struct Fat32Formatter {
    /// Boot sector configuration.
    pub boot_sector: Fat32BootSector,
    /// Partition offset in bytes.
    pub partition_offset: u64,
    /// Next free cluster.
    next_cluster: u32,
}

/// The root directory cluster: the volume label entry (label, attribute
/// 0x08, zeros), then zeros to the end of the cluster.
pub open spec fn root_dir_image(bs: Fat32BootSector) -> Seq<u8> {
    bs.volume_label@ + seq![0x08u8] + zeros(20) + zeros((bs.sectors_per_cluster * 512 - 32) as nat)
}

impl Fat32Formatter {
    /// The next cluster `allocate_cluster` hands out.
    pub closed spec fn next_free(&self) -> u32 {
        self.next_cluster
    }

    /// The boot sector the formatter writes.
    pub closed spec fn boot(&self) -> Fat32BootSector {
        self.boot_sector
    }

    /// The partition's offset on the device.
    pub closed spec fn offset(&self) -> u64 {
        self.partition_offset
    }

    /// Create a new FAT32 formatter; clusters are handed out from 3, cluster
    /// 2 being the root directory.
    pub fn new(partition_offset: u64, partition_size: u64, volume_label: &str) -> (r: Result<Self>)
        requires
            total_sectors_for(partition_size) >= RESERVED_SECTORS,
        ensures
            r matches Ok(f) && boot_sector_for(f.boot(), partition_size, volume_label.spec_bytes())
                && f.offset() == partition_offset && f.next_free() == 3,
    {
        let boot_sector = match Fat32BootSector::new(partition_size, volume_label) {
            Ok(b) => b,
            Err(e) => return Err(e),
        };
        Ok(Fat32Formatter { boot_sector, partition_offset, next_cluster: 3 })
    }

    /// The next cluster `allocate_cluster` hands out.
    pub fn next_cluster(&self) -> (r: u32)
        ensures
            r == self.next_free(),
    {
        self.next_cluster
    }

    /// The boot sector the formatter writes.
    pub fn boot_sector(&self) -> (r: &Fat32BootSector)
        ensures
            *r == self.boot(),
    {
        &self.boot_sector
    }

    /// The partition's offset on the device.
    pub fn partition_offset(&self) -> (r: u64)
        ensures
            r == self.offset(),
    {
        self.partition_offset
    }

    /// Allocate a cluster and return its number.
    pub fn allocate_cluster(&mut self) -> (r: u32)
        requires
            old(self).next_free() < u32::MAX,
        ensures
            r == old(self).next_free(),
            final(self).next_free() == old(self).next_free() + 1,
            final(self).boot() == old(self).boot(),
            final(self).offset() == old(self).offset(),
    {
        let cluster = self.next_cluster;
        self.next_cluster = self.next_cluster + 1;
        cluster
    }

    /// The bytes of the root directory cluster.
    pub fn root_dir_bytes(&self) -> (r: Vec<u8>)
        requires
            self.boot().sectors_per_cluster > 0,
        ensures
            r@ == root_dir_image(self.boot()),
    {
        let mut v: Vec<u8> = Vec::new();
        push_all(&mut v, self.boot_sector.volume_label.as_slice());
        push_byte(&mut v, 0x08);
        push_zeros(&mut v, 20);
        let remaining = self.boot_sector.bytes_per_cluster() as usize - 32;
        push_zeros(&mut v, remaining);
        assert(v@ =~= root_dir_image(self.boot_sector));
        v
    }
}

/// The two writes of FAT copies `0..n`: each its first sector, then zeros
/// over the rest of the copy.
pub open spec fn fat_copy_writes(bs: Fat32BootSector, partition_offset: u64, n: nat) -> Seq<WriteView>
    decreases n,
{
    if n == 0 {
        Seq::empty()
    } else {
        let start = partition_offset + bs.reserved_sectors * 512 + (n - 1) * bs.sectors_per_fat * 512;
        fat_copy_writes(bs, partition_offset, (n - 1) as nat).push(
            WriteView::Bytes(start as u64, fat_first_sector_image()),
        ).push(WriteView::Zeros((start + 512) as u64, ((bs.sectors_per_fat - 1) * 512) as u64))
    }
}

/// The writes that format a partition, in order: boot sector, FSInfo,
/// backup boot sector, the FAT copies, the root directory cluster.
pub open spec fn format_writes_spec(bs: Fat32BootSector, partition_offset: u64) -> Seq<WriteView> {
    seq![
        WriteView::Bytes(partition_offset, boot_sector_image(bs)),
        WriteView::Bytes((partition_offset + bs.fsinfo_sector * 512) as u64, fsinfo_image()),
        WriteView::Bytes((partition_offset + bs.backup_boot_sector * 512) as u64, boot_sector_image(bs)),
    ] + fat_copy_writes(bs, partition_offset, bs.fat_count as nat) + seq![
        WriteView::Bytes(cluster_start(bs, partition_offset, 2) as u64, root_dir_image(bs)),
    ]
}

impl Fat32Formatter {
    /// The writes that format the partition with FAT32.
    pub fn format_writes(&self) -> (r: Vec<DiskWrite>)
        requires
            self.boot().sectors_per_cluster >= 1,
            self.boot().sectors_per_fat >= 1,
            self.offset() + self.boot().fsinfo_sector * 512 <= u64::MAX,
            self.offset() + self.boot().backup_boot_sector * 512 <= u64::MAX,
            data_area_start(self.boot(), self.offset()) + self.boot().sectors_per_cluster * 512
                <= u64::MAX,
        ensures
            r@.len() == 4 + 2 * self.boot().fat_count,
            forall|i: int|
                0 <= i < r@.len() ==> #[trigger] r@[i]@ == format_writes_spec(
                    self.boot(),
                    self.offset(),
                )[i],
    {
        let bs = &self.boot_sector;
        let off = self.partition_offset;
        let mut w: Vec<DiskWrite> = Vec::new();
        w.push(DiskWrite::Bytes { offset: off, data: bs.boot_sector_bytes() });
        w.push(DiskWrite::Bytes { offset: bs.fsinfo_offset(off), data: bs.fsinfo_sector_bytes() });
        w.push(DiskWrite::Bytes { offset: bs.backup_boot_offset(off), data: bs.boot_sector_bytes() });
        let ghost head = seq![
            WriteView::Bytes(off, boot_sector_image(*bs)),
            WriteView::Bytes((off + bs.fsinfo_sector * 512) as u64, fsinfo_image()),
            WriteView::Bytes((off + bs.backup_boot_sector * 512) as u64, boot_sector_image(*bs)),
        ];
        assert(w@.map_values(|x: DiskWrite| x@) =~= head);
        let mut i: u8 = 0;
        while i < bs.fat_count
            invariant
                bs == &self.boot_sector,
                off == self.partition_offset,
                i <= bs.fat_count,
                bs.sectors_per_fat >= 1,
                data_area_start(*bs, off) + bs.sectors_per_cluster * 512 <= u64::MAX,
                w@.map_values(|x: DiskWrite| x@) == head + fat_copy_writes(*bs, off, i as nat),
            decreases bs.fat_count - i,
        {
            proof {
                assert(i * bs.sectors_per_fat * 512 + bs.sectors_per_fat * 512 <= bs.fat_count
                    * bs.sectors_per_fat * 512) by (nonlinear_arith)
                    requires
                        i < bs.fat_count,
                ;
            }
            let start = bs.fat_start(off, i);
            let ghost before = w@;
            let first = DiskWrite::Bytes { offset: start, data: bs.fat_first_sector_bytes() };
            let rest = DiskWrite::Zeros { offset: start + 512, len: (bs.sectors_per_fat as u64 - 1) * 512 };
            let ghost fv = first@;
            let ghost rv = rest@;
            assert(fat_copy_writes(*bs, off, (i + 1) as nat) == fat_copy_writes(*bs, off, i as nat).push(
                fv,
            ).push(rv));
            w.push(first);
            w.push(rest);
            assert(w@ == before.push(first).push(rest));
            assert(w@.map_values(|x: DiskWrite| x@) =~= before.map_values(|x: DiskWrite| x@).push(fv).push(rv));
            i = i + 1;
        }
        proof {
            assert(0 <= (2 - 2) * bs.sectors_per_cluster * 512);
        }
        w.push(DiskWrite::Bytes { offset: bs.cluster_offset(off, 2), data: self.root_dir_bytes() });
        assert(w@.map_values(|x: DiskWrite| x@) =~= format_writes_spec(*bs, off));
        proof {
            lemma_fat_copy_writes_len(*bs, off, bs.fat_count as nat);
            assert forall|k: int| 0 <= k < w@.len() implies #[trigger] w@[k]@ == format_writes_spec(
                *bs,
                off,
            )[k] by {
                assert(w@.map_values(|x: DiskWrite| x@)[k] == w@[k]@);
            }
        }
        w
    }
}

proof fn lemma_fat_copy_writes_len(bs: Fat32BootSector, partition_offset: u64, n: nat)
    ensures
        fat_copy_writes(bs, partition_offset, n).len() == 2 * n,
    decreases n,
{
    if n > 0 {
        lemma_fat_copy_writes_len(bs, partition_offset, (n - 1) as nat);
    }
}

/// The FAT is large enough: on a partition laid out by
/// `Fat32BootSector::new`, its entries (128 per sector) cover the two
/// reserved entries and every data cluster behind the FATs.
pub proof fn lemma_fat_covers_clusters(bs: Fat32BootSector, partition_size: u64, label: Seq<u8>)
    requires
        boot_sector_for(bs, partition_size, label),
        bs.reserved_sectors + bs.fat_count * bs.sectors_per_fat <= bs.total_sectors,
    ensures
        bs.sectors_per_fat * 128 >= (bs.total_sectors - bs.reserved_sectors - bs.fat_count
            * bs.sectors_per_fat) / (bs.sectors_per_cluster as int) + 2,
{
    let total = bs.total_sectors as int;
    let spc = bs.sectors_per_cluster as int;
    let spf = bs.sectors_per_fat as int;
    let est = (total - 32) / spc;
    let data = (total - 32 - 2 * spf) / spc;
    assert(spc >= 1);
    assert(spf == (est + 127) / 128 + 1);
    assert(data <= est) by (nonlinear_arith)
        requires
            spc >= 1,
            spf >= 0,
            total - 32 - 2 * spf >= 0,
            est == (total - 32) / spc,
            data == (total - 32 - 2 * spf) / spc,
    {
        vstd::arithmetic::div_mod::lemma_div_is_ordered(total - 32 - 2 * spf, total - 32, spc);
    }
    assert(spf * 128 >= est + 128) by (nonlinear_arith)
        requires
            spf == (est + 127) / 128 + 1,
            est >= 0,
    ;
}

/// A volume laid out by `Fat32BootSector::new` on a partition of more than
/// 260MB (as every partition of a device GPT accepts) and under 2TiB is a
/// FAT32 volume: its FATs fit, and its data area holds between 65525 and
/// 268435445 clusters, the counts Microsoft's FAT specification sets for
/// FAT32.
pub proof fn lemma_fat32_cluster_count(bs: Fat32BootSector, partition_size: u64, label: Seq<u8>)
    requires
        boot_sector_for(bs, partition_size, label),
        272629760 < partition_size < 2199023255552,
    ensures
        bs.reserved_sectors + bs.fat_count * bs.sectors_per_fat <= bs.total_sectors,
        65525 <= (bs.total_sectors - bs.reserved_sectors - bs.fat_count * bs.sectors_per_fat) / (
        bs.sectors_per_cluster as int),
        (bs.total_sectors - bs.reserved_sectors - bs.fat_count * bs.sectors_per_fat) / (
        bs.sectors_per_cluster as int) <= 268435445,
{
    let t = partition_size / 512;
    assert(t < 0x1_0000_0000);
    assert(bs.total_sectors == t);
    let spc = bs.sectors_per_cluster as int;
    let spf = bs.sectors_per_fat as int;
    let est = (t - 32) / spc;
    assert(spf == (est + 127) / 128 + 1);
    assert(bs.fat_count * bs.sectors_per_fat == 2 * spf);
    if spc == table_sectors_per_cluster(partition_size) && data_clusters_for(
        partition_size,
        spc,
    ) >= 65525 {
        assert(spc == 32 || spc == 64);
        if spc == 32 {
            assert(t <= 16777216);
        } else {
            assert(t >= 16777216);
        }
    } else if spc == 8 {
        assert(t >= 532480);
    } else {
        assert(spc == 64);
        assert(t >= 16777216);
    }
}

/// Successive allocations count up from 3: for the states a fresh
/// formatter goes through over `k` calls of `allocate_cluster` (each call's
/// result and next state as its contract gives them), the `i`-th call hands
/// out cluster `3 + i`, so the clusters handed out are distinct, and none is
/// 0, 1 or the root directory's cluster 2.
#[verifier::spinoff_prover]
pub proof fn lemma_allocations_count_up(states: Seq<Fat32Formatter>, results: Seq<u32>)
    requires
        states.len() == results.len() + 1,
        states[0].next_free() == 3,
        forall|i: int|
            0 <= i < results.len() ==> #[trigger] results[i] == states[i].next_free()
                && states[i + 1].next_free() == states[i].next_free() + 1,
    ensures
        forall|i: int| 0 <= i < results.len() ==> #[trigger] results[i] == 3 + i,
        forall|i: int, j: int| 0 <= i < j < results.len() ==> results[i] < results[j],
{
    assert forall|i: int| 0 <= i <= results.len() implies #[trigger] states[i].next_free() == 3 + i by {
        lemma_state_after(states, results, i);
    }
    assert forall|i: int| 0 <= i < results.len() implies #[trigger] results[i] == 3 + i by {
        assert(states[i].next_free() == 3 + i);
    }
}

/// The state after `i` allocations stands at cluster `3 + i`.
#[verifier::spinoff_prover]
proof fn lemma_state_after(states: Seq<Fat32Formatter>, results: Seq<u32>, i: int)
    requires
        states.len() == results.len() + 1,
        states[0].next_free() == 3,
        forall|j: int|
            0 <= j < results.len() ==> #[trigger] results[j] == states[j].next_free()
                && states[j + 1].next_free() == states[j].next_free() + 1,
        0 <= i <= results.len(),
    ensures
        states[i].next_free() == 3 + i,
    decreases i,
{
    if i > 0 {
        lemma_state_after(states, results, i - 1);
        assert(results[i - 1] == states[i - 1].next_free());
    }
}

} // verus!
