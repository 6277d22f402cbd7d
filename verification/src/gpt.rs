//! GPT (GUID Partition Table) creation.
//!
//! Creates a GPT partition table with a single data partition spanning the
//! disk, for UEFI boot support: the protective MBR, the primary header and
//! entries, and their backups at the end of the disk.

use vstd::prelude::*;
use crate::bytes::{
    le16,
    le32,
    le64,
    zeros,
    push_le16,
    push_le32,
    push_le64,
    push_all,
    push_byte,
    push_zeros,
    lemma_le16_read_at,
    lemma_le32_read_at,
    lemma_le64_read_at,
    u16_le_at,
    u32_le_at,
    u64_le_at,
};
use crate::disk::{DiskWrite, WriteView};
use crate::error::{Error, Result};

verus! {

/// Sector size in bytes.
pub const SECTOR_SIZE: u64 = 512;

/// GPT signature "EFI PART".
pub const GPT_SIGNATURE: u64 = 0x5452415020494645;

/// GPT header size.
pub const GPT_HEADER_SIZE: u32 = 92;

/// GPT revision 1.0.
pub const GPT_REVISION: u32 = 0x00010000;

/// Number of partition entries.
pub const PARTITION_ENTRIES: u32 = 128;

/// Size of each partition entry.
pub const PARTITION_ENTRY_SIZE: u32 = 128;

/// Protective MBR partition type for GPT.
pub const GPT_PROTECTIVE_MBR: u8 = 0xEE;

/// The smallest device a table is made for (512MB).
pub const MIN_DEVICE_SIZE: u64 = 536870912;

/// One bit of the reflected CRC-32 register: shift right, and fold in the
/// reflected polynomial 0xEDB88320 when a 1 falls out.
pub open spec fn crc_bit(c: u32) -> u32 {
    if c & 1u32 == 1u32 {
        (c >> 1u32) ^ 0xEDB88320u32
    } else {
        c >> 1u32
    }
}

/// The register after one byte: the byte folded into the low bits, then
/// eight bit steps.
pub open spec fn crc_byte(c: u32, b: u8) -> u32 {
    crc_bit(crc_bit(crc_bit(crc_bit(crc_bit(crc_bit(crc_bit(crc_bit(c ^ (b as u32)))))))))
}

/// The register after `data`, starting from all ones.
pub open spec fn crc_register(data: Seq<u8>) -> u32
    decreases data.len(),
{
    if data.len() == 0 {
        0xFFFF_FFFFu32
    } else {
        crc_byte(crc_register(data.drop_last()), data.last())
    }
}

/// The CRC-32 of GPT (CRC-32/ISO-HDLC: reflected polynomial 0x04C11DB7,
/// initial value and final XOR all ones) of a byte sequence.
pub open spec fn crc32_iso_hdlc(data: Seq<u8>) -> u32 {
    crc_register(data) ^ 0xFFFF_FFFFu32
}

/// CRC-32/ISO-HDLC of `data`, computed by the `crc` crate
/// (`Crc::<u32>::new(&CRC_32_ISO_HDLC).checksum`, whose algorithm the crate
/// documents by these parameters): `crc32_iso_hdlc`.
#[verifier::external_body]
fn crc32(data: &[u8]) -> (r: u32)
    ensures
        r == crc32_iso_hdlc(data@),
{
    crc::Crc::<u32>::new(&crc::CRC_32_ISO_HDLC).checksum(data)
}

/// CRC-32/ISO-HDLC of `data`, as written into GPT headers.
pub fn gpt_crc32(data: &[u8]) -> (r: u32)
    ensures
        r == crc32_iso_hdlc(data@),
{
    crc32(data)
}

/// The UTF-16 code units of a character: its code when it lies below
/// U+10000, else a surrogate pair carrying the code less 0x10000, the high
/// ten bits after 0xD800 and the low ten bits after 0xDC00.
pub open spec fn utf16_of_char(c: char) -> Seq<u16> {
    if (c as u32) < 0x10000 {
        seq![c as u16]
    } else {
        let v = (c as u32) - 0x10000;
        seq![(0xD800 + v / 0x400) as u16, (0xDC00 + v % 0x400) as u16]
    }
}

/// The UTF-16 code units of a text, character after character.
pub open spec fn utf16_units(s: Seq<char>) -> Seq<u16>
    decreases s.len(),
{
    if s.len() == 0 {
        Seq::empty()
    } else {
        utf16_units(s.drop_last()) + utf16_of_char(s.last())
    }
}

/// A text whose characters all lie below U+D800 has one unit per
/// character, equal to the character's code.
pub proof fn lemma_utf16_below_surrogates(s: Seq<char>)
    requires
        forall|i: int| 0 <= i < s.len() ==> (#[trigger] s[i] as u32) < 0xD800,
    ensures
        utf16_units(s) == s.map_values(|c: char| c as u16),
    decreases s.len(),
{
    if s.len() > 0 {
        let t = s.drop_last();
        assert forall|i: int| 0 <= i < t.len() implies (#[trigger] t[i] as u32) < 0xD800 by {
            assert(t[i] == s[i]);
        }
        lemma_utf16_below_surrogates(t);
        assert((s.last() as u32) < 0xD800);
        assert(s.map_values(|c: char| c as u16) =~= t.map_values(|c: char| c as u16) + seq![
            s.last() as u16,
        ]);
    }
}

/// The UTF-16 encoding of `s` (`str::encode_utf16`).
#[verifier::external_body]
pub(crate) fn encode_utf16(s: &str) -> (r: Vec<u16>)
    ensures
        r@ == utf16_units(s@),
{
    s.encode_utf16().collect()
}

/// Random bytes of a version-4 UUID (`Uuid::new_v4().as_bytes()`): the
/// version nibble of byte 6 is 4 and the top bits of byte 8 are `10`. Panics
/// only when the system offers no randomness.
#[verifier::external_body]
fn random_guid() -> (r: [u8; 16])
    ensures
        r@[6] & 0xF0 == 0x40,
        r@[8] & 0xC0 == 0x80,
{
    *uuid::Uuid::new_v4().as_bytes()
}

/// Microsoft Basic Data Partition type GUID, in on-disk byte order.
pub open spec fn basic_data_type_guid() -> Seq<u8> {
    seq![
        0xa2u8, 0xa0, 0xd0, 0xeb, 0xe5, 0xb9, 0x33, 0x44, 0x87, 0xc0, 0x68, 0xb6, 0xb7, 0x26, 0x99,
        0xc7,
    ]
}

fn basic_data_guid_bytes() -> (r: [u8; 16])
    ensures
        r@ == basic_data_type_guid(),
{
    let r: [u8; 16] = [
        0xa2, 0xa0, 0xd0, 0xeb, 0xe5, 0xb9, 0x33, 0x44, 0x87, 0xc0, 0x68, 0xb6, 0xb7, 0x26, 0x99,
        0xc7,
    ];
    assert(r@ =~= basic_data_type_guid());
    r
}

/// GPT partition table.
#[derive(Debug)]
pub struct GptTable {
    /// Disk GUID.
    pub disk_guid: [u8; 16],
    /// Total device size in bytes.
    pub device_size: u64,
    /// Partitions.
    pub partitions: Vec<GptPartition>,
}

/// A GPT partition entry.
#[derive(Debug)]
pub struct GptPartition {
    /// Partition type GUID.
    pub type_guid: [u8; 16],
    /// Unique partition GUID.
    pub partition_guid: [u8; 16],
    /// Starting LBA.
    pub start_lba: u64,
    /// Ending LBA (inclusive).
    pub end_lba: u64,
    /// Partition attributes.
    pub attributes: u64,
    /// Partition name (UTF-16LE, max 36 chars).
    pub name: String,
}

/// The 72-byte name field: the first `n` of 36 slots, each the little-endian
/// code unit, or two zeros past the end of the name.
pub open spec fn name_field(units: Seq<u16>, n: nat) -> Seq<u8>
    decreases n,
{
    if n == 0 {
        Seq::empty()
    } else {
        name_field(units, (n - 1) as nat) + if n - 1 < units.len() {
            le16(units[n - 1])
        } else {
            zeros(2)
        }
    }
}

/// The 128 bytes of a partition entry.
pub open spec fn entry_image(p: GptPartition) -> Seq<u8> {
    p.type_guid@ + p.partition_guid@ + le64(p.start_lba) + le64(p.end_lba) + le64(p.attributes)
        + name_field(utf16_units(p.name@), 36)
}

/// The entries of the first `n` partitions, one after the other.
pub open spec fn entries_prefix(parts: Seq<GptPartition>, n: nat) -> Seq<u8>
    decreases n,
{
    if n == 0 {
        Seq::empty()
    } else {
        entries_prefix(parts, (n - 1) as nat) + entry_image(parts[n - 1])
    }
}

/// The 16KB partition entry array: the partitions' entries, then zeros.
pub open spec fn entries_image(parts: Seq<GptPartition>) -> Seq<u8> {
    entries_prefix(parts, parts.len()) + zeros((128 * (128 - parts.len())) as nat)
}

/// The protective MBR: one partition of type 0xEE covering the disk after
/// sector 0 (at most 0xFFFFFFFF sectors), and the boot signature.
pub open spec fn protective_mbr_image(total_sectors: u64) -> Seq<u8> {
    let size: u64 = if total_sectors - 1 < 0xFFFFFFFF {
        (total_sectors - 1) as u64
    } else {
        0xFFFFFFFF
    };
    zeros(446) + seq![0x00u8, 0x00u8, 0x02u8, 0x00u8, GPT_PROTECTIVE_MBR, 0xFFu8, 0xFFu8, 0xFFu8]
        + le32(1) + le32(size as u32) + zeros(48) + seq![0x55u8, 0xAAu8]
}

/// The first 16 bytes of a header: signature, revision, header size.
pub open spec fn header_head() -> Seq<u8> {
    le64(GPT_SIGNATURE) + le32(GPT_REVISION) + le32(GPT_HEADER_SIZE)
}

/// Bytes 20..92 of a header: reserved, the LBAs, disk GUID, entry array.
pub open spec fn header_tail(
    t: GptTable,
    header_lba: u64,
    backup_lba: u64,
    entries_lba: u64,
    entries_crc: u32,
) -> Seq<u8> {
    le32(0) + le64(header_lba) + le64(backup_lba) + le64(34) + le64(
        (t.device_size / 512 - 34) as u64,
    ) + t.disk_guid@ + le64(entries_lba) + le32(PARTITION_ENTRIES) + le32(PARTITION_ENTRY_SIZE)
        + le32(entries_crc)
}

/// The 512-byte header sector: the 92 header bytes with their CRC-32 (taken
/// with the CRC field zeroed) at bytes 16..20, then zeros.
pub open spec fn header_image(
    t: GptTable,
    header_lba: u64,
    backup_lba: u64,
    entries_lba: u64,
    entries_crc: u32,
) -> Seq<u8> {
    let tail = header_tail(t, header_lba, backup_lba, entries_lba, entries_crc);
    header_head() + le32(crc32_iso_hdlc(header_head() + le32(0) + tail)) + tail + zeros(420)
}

/// The writes that lay a table on the disk, in order: protective MBR,
/// primary header (CRC of entries zero), primary entries, primary header
/// with the entries' CRC, backup entries at the last 33 sectors, backup
/// header at the last sector.
pub open spec fn table_writes(t: GptTable) -> Seq<WriteView> {
    let total = (t.device_size / 512) as u64;
    let entries = entries_image(t.partitions@);
    let crc = crc32_iso_hdlc(entries);
    seq![
        WriteView::Bytes(0, protective_mbr_image(total)),
        WriteView::Bytes(512, header_image(t, 1, (total - 1) as u64, 2, 0)),
        WriteView::Bytes(1024, entries),
        WriteView::Bytes(512, header_image(t, 1, (total - 1) as u64, 2, crc)),
        WriteView::Bytes(((total - 33) * 512) as u64, entries),
        WriteView::Bytes(((total - 1) * 512) as u64, header_image(t, (total - 1) as u64, 1, (total - 33) as u64, crc)),
    ]
}

/// The layout of a fresh table: one partition of type Basic Data, named
/// "Microsoft Basic Data", from LBA 2048 to 34 sectors before the end.
pub open spec fn esp_table(t: GptTable, device_size: u64) -> bool {
    &&& t.device_size == device_size
    &&& t.partitions@.len() == 1
    &&& t.partitions@[0].type_guid@ == basic_data_type_guid()
    &&& t.partitions@[0].start_lba == 2048
    &&& t.partitions@[0].end_lba == device_size / 512 - 34
    &&& t.partitions@[0].attributes == 0
    &&& t.partitions@[0].name@ == "Microsoft Basic Data"@
}

impl GptTable {
    /// Create a new GPT with a single basic-data partition from LBA 2048 to
    /// the last usable LBA (34 sectors before the end), using all available
    /// space. Devices under 512MB are refused. The disk and partition GUIDs
    /// are random version-4 UUIDs (see `with_guids`).
    pub fn new_with_esp(device_size: u64) -> (r: Result<Self>)
        ensures
            device_size < MIN_DEVICE_SIZE ==> (r matches Err(Error::DeviceTooSmall { required, available })
                && required == MIN_DEVICE_SIZE && available == device_size),
            device_size >= MIN_DEVICE_SIZE ==> (r matches Ok(t) && esp_table(t, device_size)
                && t.disk_guid@[6] & 0xF0 == 0x40 && t.disk_guid@[8] & 0xC0 == 0x80
                && t.partitions@[0].partition_guid@[6] & 0xF0 == 0x40
                && t.partitions@[0].partition_guid@[8] & 0xC0 == 0x80),
    {
        if device_size < MIN_DEVICE_SIZE {
            return Err(Error::DeviceTooSmall { required: MIN_DEVICE_SIZE, available: device_size });
        }
        let disk_guid = random_guid();
        let partition_guid = random_guid();
        Self::with_guids(device_size, disk_guid, partition_guid)
    }

    /// The table `new_with_esp` lays out, with the given disk and partition
    /// GUIDs.
    pub fn with_guids(device_size: u64, disk_guid: [u8; 16], partition_guid: [u8; 16]) -> (r: Result<
        Self,
    >)
        ensures
            device_size < MIN_DEVICE_SIZE ==> (r matches Err(Error::DeviceTooSmall { required, available })
                && required == MIN_DEVICE_SIZE && available == device_size),
            device_size >= MIN_DEVICE_SIZE ==> (r matches Ok(t) && esp_table(t, device_size)
                && t.disk_guid == disk_guid && t.partitions@[0].partition_guid == partition_guid),
    {
        if device_size < MIN_DEVICE_SIZE {
            return Err(Error::DeviceTooSmall { required: MIN_DEVICE_SIZE, available: device_size });
        }
        let total_sectors = device_size / SECTOR_SIZE;
        let last_usable_lba = total_sectors - 34;
        let esp = GptPartition {
            type_guid: basic_data_guid_bytes(),
            partition_guid,
            start_lba: 2048,
            end_lba: last_usable_lba,
            attributes: 0,
            name: "Microsoft Basic Data".to_owned(),
        };
        let mut partitions: Vec<GptPartition> = Vec::new();
        partitions.push(esp);
        Ok(GptTable { disk_guid, device_size, partitions })
    }

    /// The protective MBR sector.
    pub fn protective_mbr_bytes(total_sectors: u64) -> (r: Vec<u8>)
        requires
            total_sectors >= 1,
        ensures
            r@ == protective_mbr_image(total_sectors),
            r@.len() == 512,
    {
        let mut v: Vec<u8> = Vec::new();
        push_zeros(&mut v, 446);
        let entry_head: [u8; 8] = [0x00, 0x00, 0x02, 0x00, GPT_PROTECTIVE_MBR, 0xFF, 0xFF, 0xFF];
        assert(entry_head@ =~= seq![0x00u8, 0x00u8, 0x02u8, 0x00u8, GPT_PROTECTIVE_MBR, 0xFFu8, 0xFFu8, 0xFFu8]);
        push_all(&mut v, entry_head.as_slice());
        push_le32(&mut v, 1);
        let size: u64 = if total_sectors - 1 < 0xFFFFFFFF {
            total_sectors - 1
        } else {
            0xFFFFFFFF
        };
        push_le32(&mut v, size as u32);
        push_zeros(&mut v, 48);
        let sig: [u8; 2] = [0x55, 0xAA];
        assert(sig@ =~= seq![0x55u8, 0xAAu8]);
        push_all(&mut v, sig.as_slice());
        v
    }

    /// The 16KB partition entry array.
    pub fn partition_entries_bytes(&self) -> (r: Vec<u8>)
        requires
            self.partitions@.len() <= 128,
        ensures
            r@ == entries_image(self.partitions@),
            r@.len() == 16384,
    {
        let mut v: Vec<u8> = Vec::new();
        let n = self.partitions.len();
        let mut i: usize = 0;
        while i < n
            invariant
                n == self.partitions@.len(),
                n <= 128,
                i <= n,
                v@ == entries_prefix(self.partitions@, i as nat),
                v@.len() == 128 * i,
            decreases n - i,
        {
            let p = &self.partitions[i];
            push_all(&mut v, p.type_guid.as_slice());
            push_all(&mut v, p.partition_guid.as_slice());
            push_le64(&mut v, p.start_lba);
            push_le64(&mut v, p.end_lba);
            push_le64(&mut v, p.attributes);
            let units = encode_utf16(p.name.as_str());
            let mut j: usize = 0;
            let ghost base = v@;
            while j < 36
                invariant
                    j <= 36,
                    units@ == utf16_units(p.name@),
                    v@ == base + name_field(units@, j as nat),
                decreases 36 - j,
            {
                if j < units.len() {
                    push_le16(&mut v, units[j]);
                } else {
                    push_zeros(&mut v, 2);
                }
                j = j + 1;
            }
            proof {
                lemma_name_field_len(units@, 36);
            }
            i = i + 1;
        }
        push_zeros(&mut v, 128 * (128 - n));
        v
    }

    /// A header sector for the given locations and entry CRC.
    pub fn gpt_header_bytes(&self, header_lba: u64, backup_lba: u64, entries_lba: u64, entries_crc: u32) -> (r:
        Vec<u8>)
        requires
            self.device_size / 512 >= 34,
        ensures
            r@ == header_image(*self, header_lba, backup_lba, entries_lba, entries_crc),
            r@.len() == 512,
    {
        let total_sectors = self.device_size / SECTOR_SIZE;
        let mut head: Vec<u8> = Vec::new();
        push_le64(&mut head, GPT_SIGNATURE);
        push_le32(&mut head, GPT_REVISION);
        push_le32(&mut head, GPT_HEADER_SIZE);
        assert(head@ =~= header_head());
        let mut tail: Vec<u8> = Vec::new();
        push_le32(&mut tail, 0);
        push_le64(&mut tail, header_lba);
        push_le64(&mut tail, backup_lba);
        push_le64(&mut tail, 34);
        push_le64(&mut tail, total_sectors - 34);
        push_all(&mut tail, self.disk_guid.as_slice());
        push_le64(&mut tail, entries_lba);
        push_le32(&mut tail, PARTITION_ENTRIES);
        push_le32(&mut tail, PARTITION_ENTRY_SIZE);
        push_le32(&mut tail, entries_crc);
        assert(tail@ =~= header_tail(*self, header_lba, backup_lba, entries_lba, entries_crc));
        let mut unsummed: Vec<u8> = Vec::new();
        push_all(&mut unsummed, head.as_slice());
        push_le32(&mut unsummed, 0);
        push_all(&mut unsummed, tail.as_slice());
        assert(unsummed@ =~= header_head() + le32(0) + tail@);
        let header_crc = crc32(unsummed.as_slice());
        let mut v: Vec<u8> = Vec::new();
        push_all(&mut v, head.as_slice());
        push_le32(&mut v, header_crc);
        push_all(&mut v, tail.as_slice());
        push_zeros(&mut v, 420);
        assert(v@ =~= header_image(*self, header_lba, backup_lba, entries_lba, entries_crc));
        v
    }

    /// The writes that lay the table on the disk, in order.
    pub fn disk_writes(&self) -> (r: Vec<DiskWrite>)
        requires
            self.device_size / 512 >= 34,
            self.partitions@.len() <= 128,
        ensures
            r@.len() == 6,
            forall|i: int| 0 <= i < 6 ==> #[trigger] r@[i]@ == table_writes(*self)[i],
    {
        let total = self.device_size / SECTOR_SIZE;
        let mut w: Vec<DiskWrite> = Vec::new();
        w.push(DiskWrite::Bytes { offset: 0, data: Self::protective_mbr_bytes(total) });
        w.push(DiskWrite::Bytes { offset: 512, data: self.gpt_header_bytes(1, total - 1, 2, 0) });
        let entries = self.partition_entries_bytes();
        let entries_crc = crc32(entries.as_slice());
        w.push(DiskWrite::Bytes { offset: 1024, data: entries });
        w.push(DiskWrite::Bytes { offset: 512, data: self.gpt_header_bytes(1, total - 1, 2, entries_crc) });
        w.push(DiskWrite::Bytes { offset: (total - 33) * SECTOR_SIZE, data: self.partition_entries_bytes() });
        w.push(
            DiskWrite::Bytes {
                offset: (total - 1) * SECTOR_SIZE,
                data: self.gpt_header_bytes(total - 1, 1, total - 33, entries_crc),
            },
        );
        w
    }

    /// Get the starting offset of the ESP in bytes.
    pub fn esp_offset(&self) -> (r: u64)
        requires
            self.partitions@.len() > 0,
            self.partitions@[0].start_lba * 512 <= u64::MAX,
        ensures
            r == self.partitions@[0].start_lba * 512,
    {
        self.partitions[0].start_lba * SECTOR_SIZE
    }

    /// Get the size of the ESP in bytes.
    pub fn esp_size(&self) -> (r: u64)
        requires
            self.partitions@.len() > 0,
            self.partitions@[0].start_lba <= self.partitions@[0].end_lba,
            (self.partitions@[0].end_lba - self.partitions@[0].start_lba + 1) * 512 <= u64::MAX,
        ensures
            r == (self.partitions@[0].end_lba - self.partitions@[0].start_lba + 1) * 512,
    {
        let esp = &self.partitions[0];
        (esp.end_lba - esp.start_lba + 1) * SECTOR_SIZE
    }
}

proof fn lemma_name_field_len(units: Seq<u16>, n: nat)
    ensures
        name_field(units, n).len() == 2 * n,
    decreases n,
{
    if n > 0 {
        lemma_name_field_len(units, (n - 1) as nat);
    }
}

/// Slot `k` of a name field holds unit `k`, or zero past the name.
proof fn lemma_name_field_slot(units: Seq<u16>, n: nat, k: int)
    requires
        0 <= k < n,
    ensures
        name_field(units, n).subrange(2 * k, 2 * k + 2) == (if k < units.len() {
            le16(units[k])
        } else {
            le16(0)
        }),
    decreases n,
{
    lemma_name_field_len(units, (n - 1) as nat);
    let prev = name_field(units, (n - 1) as nat);
    let f = name_field(units, n);
    assert(((0u16 >> 8u16) as u8) == 0u8) by (bit_vector);
    assert(le16(0) =~= zeros(2));
    if k == n - 1 {
        assert(f.subrange(2 * k, 2 * k + 2) =~= f.subrange(prev.len() as int, f.len() as int));
    } else {
        lemma_name_field_slot(units, (n - 1) as nat, k);
        assert(f.subrange(2 * k, 2 * k + 2) =~= prev.subrange(2 * k, 2 * k + 2));
    }
}

/// The entries of the first `n` partitions take 128 bytes each, entry `i`
/// at `128 * i`.
proof fn lemma_entries_prefix_slot(parts: Seq<GptPartition>, n: nat, i: int)
    requires
        n <= parts.len(),
        0 <= i < n,
    ensures
        entries_prefix(parts, n).len() == 128 * n,
        entries_prefix(parts, n).subrange(128 * i, 128 * i + 128) == entry_image(parts[i]),
    decreases n,
{
    lemma_name_field_len(utf16_units(parts[n - 1].name@), 36);
    let prev = entries_prefix(parts, (n - 1) as nat);
    let all = entries_prefix(parts, n);
    if n - 1 > 0 {
        lemma_entries_prefix_slot(parts, (n - 1) as nat, 0);
    }
    assert(prev.len() == 128 * (n - 1));
    if i == n - 1 {
        assert(all.subrange(128 * i, 128 * i + 128) =~= entry_image(parts[i]));
    } else {
        lemma_entries_prefix_slot(parts, (n - 1) as nat, i);
        assert(all.subrange(128 * i, 128 * i + 128) =~= prev.subrange(128 * i, 128 * i + 128));
    }
}

/// The bytes at `b` of `img` are those of `e`, over `e`'s length.
spec fn holds_at(img: Seq<u8>, b: int, e: Seq<u8>) -> bool {
    &&& 0 <= b
    &&& b + e.len() <= img.len()
    &&& forall|m: int| 0 <= m < e.len() ==> #[trigger] img[b + m] == e[m]
}

/// Entry `i` of the array reads back to partition `i`.
proof fn lemma_entry_reads_back(parts: Seq<GptPartition>, i: int)
    requires
        parts.len() <= 128,
        0 <= i < parts.len(),
    ensures
        ({
            let img = entries_image(parts);
            let p = parts[i];
            &&& img.subrange(128 * i, 128 * i + 16) == p.type_guid@
            &&& img.subrange(128 * i + 16, 128 * i + 32) == p.partition_guid@
            &&& u64_le_at(img, 128 * i + 32) == p.start_lba
            &&& u64_le_at(img, 128 * i + 40) == p.end_lba
            &&& u64_le_at(img, 128 * i + 48) == p.attributes
            &&& forall|k: int|
                0 <= k < 36 ==> #[trigger] u16_le_at(img, 128 * i + 56 + 2 * k) == (if k
                    < utf16_units(p.name@).len() {
                    utf16_units(p.name@)[k]
                } else {
                    0
                })
        }),
{
    let n = parts.len();
    let img = entries_image(parts);
    let pre = entries_prefix(parts, n);
    let p = parts[i];
    let e = entry_image(p);
    let units = utf16_units(p.name@);
    lemma_entries_prefix_slot(parts, n, i);
    lemma_name_field_len(units, 36);
    let b = 128 * i;
    assert(e.len() == 128);
    assert(holds_at(img, b, e)) by {
        assert forall|m: int| 0 <= m < 128 implies #[trigger] img[b + m] == e[m] by {
            assert(img[b + m] == pre[b + m]);
            assert(pre.subrange(b, b + 128)[m] == e[m]);
        }
    }
    assert(e.subrange(0, 16) =~= p.type_guid@);
    assert(e.subrange(16, 32) =~= p.partition_guid@);
    assert(e.subrange(32, 40) =~= le64(p.start_lba));
    assert(e.subrange(40, 48) =~= le64(p.end_lba));
    assert(e.subrange(48, 56) =~= le64(p.attributes));
    assert(e.subrange(56, 128) =~= name_field(units, 36));
    assert(img.subrange(b, b + 16) =~= e.subrange(0, 16));
    assert(img.subrange(b + 16, b + 32) =~= e.subrange(16, 32));
    assert(img.subrange(b + 32, b + 40) =~= e.subrange(32, 40));
    lemma_le64_read_at(img, b + 32, p.start_lba);
    assert(img.subrange(b + 40, b + 48) =~= e.subrange(40, 48));
    lemma_le64_read_at(img, b + 40, p.end_lba);
    assert(img.subrange(b + 48, b + 56) =~= e.subrange(48, 56));
    lemma_le64_read_at(img, b + 48, p.attributes);
    assert forall|k: int| 0 <= k < 36 implies #[trigger] u16_le_at(img, b + 56 + 2 * k) == (if k
        < units.len() {
        units[k]
    } else {
        0
    }) by {
        lemma_name_field_slot(units, 36, k);
        let nf = name_field(units, 36);
        let v: u16 = if k < units.len() {
            units[k]
        } else {
            0
        };
        assert(img[b + 56 + 2 * k] == e[56 + 2 * k]);
        assert(img[b + 56 + 2 * k + 1] == e[56 + 2 * k + 1]);
        assert(img.subrange(b + 56 + 2 * k, b + 56 + 2 * k + 2) =~= nf.subrange(2 * k, 2 * k + 2));
        lemma_le16_read_at(img, b + 56 + 2 * k, v);
    }
}

/// The partition entry array reads back to the table's partitions: it is
/// 16KB; entry `i` (at byte `128 * i`) holds partition `i`'s type GUID at
/// 0, its own GUID at 16, its first LBA at 32, its last LBA at 40, its
/// attributes at 48 and from 56 its name's UTF-16 units, one per two bytes,
/// zero past the name; every byte after the last entry is zero.
pub proof fn lemma_entries_read_back(parts: Seq<GptPartition>)
    requires
        parts.len() <= 128,
    ensures
        ({
            let img = entries_image(parts);
            &&& img.len() == 16384
            &&& forall|i: int|
                0 <= i < parts.len() ==> {
                    &&& img.subrange(128 * i, 128 * i + 16) == (#[trigger] parts[i]).type_guid@
                    &&& img.subrange(128 * i + 16, 128 * i + 32) == parts[i].partition_guid@
                    &&& u64_le_at(img, 128 * i + 32) == parts[i].start_lba
                    &&& u64_le_at(img, 128 * i + 40) == parts[i].end_lba
                    &&& u64_le_at(img, 128 * i + 48) == parts[i].attributes
                    &&& forall|k: int|
                        0 <= k < 36 ==> #[trigger] u16_le_at(img, 128 * i + 56 + 2 * k) == (if k
                            < utf16_units(parts[i].name@).len() {
                            utf16_units(parts[i].name@)[k]
                        } else {
                            0
                        })
                }
            &&& forall|j: int| 128 * parts.len() <= j < 16384 ==> #[trigger] img[j] == 0
        }),
{
    let n = parts.len();
    let img = entries_image(parts);
    let pre = entries_prefix(parts, n);
    if n > 0 {
        lemma_entries_prefix_slot(parts, n, 0);
    }
    assert(pre.len() == 128 * n);
    assert(img.len() == 16384);
    assert forall|i: int| 0 <= i < n implies {
        &&& img.subrange(128 * i, 128 * i + 16) == (#[trigger] parts[i]).type_guid@
        &&& img.subrange(128 * i + 16, 128 * i + 32) == parts[i].partition_guid@
        &&& u64_le_at(img, 128 * i + 32) == parts[i].start_lba
        &&& u64_le_at(img, 128 * i + 40) == parts[i].end_lba
        &&& u64_le_at(img, 128 * i + 48) == parts[i].attributes
        &&& forall|k: int|
            0 <= k < 36 ==> #[trigger] u16_le_at(img, 128 * i + 56 + 2 * k) == (if k < utf16_units(
                parts[i].name@,
            ).len() {
                utf16_units(parts[i].name@)[k]
            } else {
                0
            })
    } by {
        lemma_entry_reads_back(parts, i);
    }
    assert forall|j: int| 128 * n <= j < 16384 implies #[trigger] img[j] == 0 by {
        assert(img[j] == zeros((128 * (128 - n)) as nat)[j - 128 * n]);
    }
}

/// A header reads back to what it was laid for: the "EFI PART" signature,
/// revision 1.0 and a 92-byte header size; its own LBA at 24 and the other
/// header's at 32; usable LBAs from 34 to 34 before the end at 40 and 48;
/// the disk GUID at 56; the entry array's LBA at 72, 128 entries of 128
/// bytes at 80 and 84, and the entries' CRC at 88.
pub proof fn lemma_header_reads_back(
    t: GptTable,
    header_lba: u64,
    backup_lba: u64,
    entries_lba: u64,
    entries_crc: u32,
)
    ensures
        ({
            let h = header_image(t, header_lba, backup_lba, entries_lba, entries_crc);
            &&& h.len() == 512
            &&& u64_le_at(h, 0) == 0x5452415020494645u64
            &&& u32_le_at(h, 8) == 0x00010000u32
            &&& u32_le_at(h, 12) == 92
            &&& u64_le_at(h, 24) == header_lba
            &&& u64_le_at(h, 32) == backup_lba
            &&& u64_le_at(h, 40) == 34
            &&& u64_le_at(h, 48) == (t.device_size / 512 - 34) as u64
            &&& h.subrange(56, 72) == t.disk_guid@
            &&& u64_le_at(h, 72) == entries_lba
            &&& u32_le_at(h, 80) == 128
            &&& u32_le_at(h, 84) == 128
            &&& u32_le_at(h, 88) == entries_crc
        }),
{
    let tail = header_tail(t, header_lba, backup_lba, entries_lba, entries_crc);
    let h = header_image(t, header_lba, backup_lba, entries_lba, entries_crc);
    let c = crc32_iso_hdlc(header_head() + le32(0) + tail);
    assert(header_head().len() == 16);
    assert(tail.len() == 72);
    assert(h =~= header_head() + le32(c) + tail + zeros(420));
    assert(h.subrange(0, 8) =~= le64(GPT_SIGNATURE));
    lemma_le64_read_at(h, 0, GPT_SIGNATURE);
    assert(h.subrange(8, 12) =~= le32(GPT_REVISION));
    lemma_le32_read_at(h, 8, GPT_REVISION);
    assert(h.subrange(12, 16) =~= le32(GPT_HEADER_SIZE));
    lemma_le32_read_at(h, 12, GPT_HEADER_SIZE);
    assert(h.subrange(24, 32) =~= le64(header_lba));
    lemma_le64_read_at(h, 24, header_lba);
    assert(h.subrange(32, 40) =~= le64(backup_lba));
    lemma_le64_read_at(h, 32, backup_lba);
    assert(h.subrange(40, 48) =~= le64(34));
    lemma_le64_read_at(h, 40, 34);
    assert(h.subrange(48, 56) =~= le64((t.device_size / 512 - 34) as u64));
    lemma_le64_read_at(h, 48, (t.device_size / 512 - 34) as u64);
    assert(h.subrange(56, 72) =~= t.disk_guid@);
    assert(h.subrange(72, 80) =~= le64(entries_lba));
    lemma_le64_read_at(h, 72, entries_lba);
    assert(h.subrange(80, 84) =~= le32(PARTITION_ENTRIES));
    lemma_le32_read_at(h, 80, PARTITION_ENTRIES);
    assert(h.subrange(84, 88) =~= le32(PARTITION_ENTRY_SIZE));
    lemma_le32_read_at(h, 84, PARTITION_ENTRY_SIZE);
    assert(h.subrange(88, 92) =~= le32(entries_crc));
    lemma_le32_read_at(h, 88, entries_crc);
}

/// The protective MBR reads back: its one partition record, at 446, has
/// type 0xEE, starts at LBA 1 and covers the rest of the disk (capped at
/// 0xFFFFFFFF sectors); the sector is 512 bytes and ends in 0x55 0xAA.
pub proof fn lemma_protective_mbr_reads_back(total_sectors: u64)
    requires
        total_sectors >= 1,
    ensures
        ({
            let m = protective_mbr_image(total_sectors);
            &&& m.len() == 512
            &&& m[450] == 0xEE
            &&& u32_le_at(m, 454) == 1
            &&& u32_le_at(m, 458) == (if total_sectors - 1 < 0xFFFFFFFF {
                total_sectors - 1
            } else {
                0xFFFFFFFF
            })
            &&& m[510] == 0x55
            &&& m[511] == 0xAA
        }),
{
    let m = protective_mbr_image(total_sectors);
    let size: u64 = if total_sectors - 1 < 0xFFFFFFFF {
        (total_sectors - 1) as u64
    } else {
        0xFFFFFFFF
    };
    assert(m.len() == 512);
    assert(m[450] == GPT_PROTECTIVE_MBR);
    assert(m.subrange(454, 458) =~= le32(1));
    lemma_le32_read_at(m, 454, 1);
    assert(m.subrange(458, 462) =~= le32(size as u32));
    lemma_le32_read_at(m, 458, size as u32);
}

/// A header checks itself: it is 512 bytes, and the CRC-32 at bytes 16..20
/// is that of its first 92 bytes with those four bytes zeroed; the CRC of
/// the entry array it records sits at bytes 88..92.
pub proof fn lemma_header_checks(
    t: GptTable,
    header_lba: u64,
    backup_lba: u64,
    entries_lba: u64,
    entries_crc: u32,
)
    ensures
        ({
            let h = header_image(t, header_lba, backup_lba, entries_lba, entries_crc);
            &&& h.len() == 512
            &&& h.subrange(16, 20) == le32(
                crc32_iso_hdlc(h.subrange(0, 16) + le32(0) + h.subrange(20, 92)),
            )
            &&& h.subrange(88, 92) == le32(entries_crc)
        }),
{
    let tail = header_tail(t, header_lba, backup_lba, entries_lba, entries_crc);
    let h = header_image(t, header_lba, backup_lba, entries_lba, entries_crc);
    let c = crc32_iso_hdlc(header_head() + le32(0) + tail);
    assert(header_head().len() == 16);
    assert(tail.len() == 72);
    assert(h =~= header_head() + le32(c) + tail + zeros(420));
    assert(h.subrange(0, 16) =~= header_head());
    assert(h.subrange(16, 20) =~= le32(c));
    assert(h.subrange(20, 92) =~= tail);
    assert(tail.subrange(68, 72) =~= le32(entries_crc));
    assert(h.subrange(88, 92) =~= tail.subrange(68, 72));
}

/// The headers laid last, primary and backup, record the CRC-32 of the
/// entry array written at both places, and each header names the other's
/// location.
#[verifier::spinoff_prover]
pub proof fn lemma_headers_record_entries(t: GptTable)
    requires
        t.device_size / 512 >= 34,
    ensures
        ({
            let w = table_writes(t);
            let total = (t.device_size / 512) as u64;
            let entries = entries_image(t.partitions@);
            &&& w[2] == WriteView::Bytes(1024, entries)
            &&& w[4] == WriteView::Bytes(((total - 33) * 512) as u64, entries)
            &&& w[3] matches WriteView::Bytes(o, h) && o == 512 && h.subrange(88, 92) == le32(
                crc32_iso_hdlc(entries),
            ) && h.subrange(24, 32) == le64(1) && h.subrange(32, 40) == le64((total - 1) as u64)
            &&& w[5] matches WriteView::Bytes(o, h) && o == (total - 1) * 512 && h.subrange(88, 92)
                == le32(crc32_iso_hdlc(entries)) && h.subrange(24, 32) == le64((total - 1) as u64)
                && h.subrange(32, 40) == le64(1)
        }),
{
    let total = (t.device_size / 512) as u64;
    let entries = entries_image(t.partitions@);
    let crc = crc32_iso_hdlc(entries);
    lemma_header_checks(t, 1, (total - 1) as u64, 2, crc);
    lemma_header_checks(t, (total - 1) as u64, 1, (total - 33) as u64, crc);
    let p = header_image(t, 1, (total - 1) as u64, 2, crc);
    let b = header_image(t, (total - 1) as u64, 1, (total - 33) as u64, crc);
    let tp = header_tail(t, 1, (total - 1) as u64, 2, crc);
    let tb = header_tail(t, (total - 1) as u64, 1, (total - 33) as u64, crc);
    assert(tp.len() == 72 && tb.len() == 72);
    let cp = crc32_iso_hdlc(header_head() + le32(0) + tp);
    let cb = crc32_iso_hdlc(header_head() + le32(0) + tb);
    assert(p =~= header_head() + le32(cp) + tp + zeros(420));
    assert(b =~= header_head() + le32(cb) + tb + zeros(420));
    assert(p.subrange(24, 32) =~= tp.subrange(4, 12));
    assert(tp.subrange(4, 12) =~= le64(1));
    assert(p.subrange(32, 40) =~= tp.subrange(12, 20));
    assert(tp.subrange(12, 20) =~= le64((total - 1) as u64));
    assert(b.subrange(24, 32) =~= tb.subrange(4, 12));
    assert(tb.subrange(4, 12) =~= le64((total - 1) as u64));
    assert(b.subrange(32, 40) =~= tb.subrange(12, 20));
    assert(tb.subrange(12, 20) =~= le64(1));
}

} // verus!
