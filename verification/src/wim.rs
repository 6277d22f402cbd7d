//! Windows Imaging (WIM) headers and lookup tables, and splitting a WIM into
//! spanned parts (SWM) that each fit a size limit, for FAT32 volumes that
//! cannot hold files of 4 GiB.

use vstd::prelude::*;
use crate::bytes::{
    le16,
    le32,
    le64,
    u16_le_at,
    u32_le_at,
    u56_le_at,
    u64_le_at,
    read_u16_le,
    read_u32_le,
    read_u56_le,
    read_u64_le,
    push_le16,
    push_le32,
    push_le64,
    push_all,
    push_byte,
    push_zeros,
    zeros,
};
use crate::text::{decimal, push_decimal, push_text, string_of};
use crate::error::IoError;

verus! {

/// Size of a WIM header.
pub const WIM_HEADER_SIZE: usize = 208;

/// Size of a lookup table entry.
pub const LOOKUP_ENTRY_SIZE: usize = 50;

/// The WIM signature, "MSWIM" and three NULs.
pub open spec fn wim_magic() -> Seq<u8> {
    seq![0x4Du8, 0x53, 0x57, 0x49, 0x4D, 0, 0, 0]
}

/// WIM errors; an I/O failure is carried as its kind and the text of
/// the underlying error.
#[derive(Debug)]
pub enum WimError {
    Io(IoError),
    InvalidSignature,
    UnsupportedVersion(u32),
    Parse(String),
}

/// The text of a WIM error.
pub open spec fn wim_error_text(e: WimError) -> Seq<char> {
    match e {
        WimError::Io(e) => "I/O error: "@ + e.message@,
        WimError::InvalidSignature => "Invalid WIM signature"@,
        WimError::UnsupportedVersion(v) => "Unsupported WIM version: "@ + decimal(v as nat),
        WimError::Parse(m) => "Parse error: "@ + m@,
    }
}

impl WimError {
    /// The text of the error.
    pub fn message(&self) -> (r: String)
        ensures
            r@ == wim_error_text(*self),
    {
        match self {
            WimError::Io(e) => {
                let mut s = string_of("I/O error: ");
                push_text(&mut s, e.message.as_str());
                s
            },
            WimError::InvalidSignature => string_of("Invalid WIM signature"),
            WimError::UnsupportedVersion(v) => {
                let mut s = string_of("Unsupported WIM version: ");
                push_decimal(&mut s, *v as u64);
                s
            },
            WimError::Parse(m) => {
                let mut s = string_of("Parse error: ");
                push_text(&mut s, m.as_str());
                s
            },
        }
    }
}

/// A resource header: a 56-bit stored size, flags, offset and original
/// size.
#[derive(Debug, Clone, Copy)]
pub struct WimResHdr {
    pub size: u64,
    pub flags: u8,
    pub offset: u64,
    pub original_size: u64,
}

impl Default for WimResHdr {
    fn default() -> (r: Self)
        ensures
            r.size == 0 && r.flags == 0 && r.offset == 0 && r.original_size == 0,
    {
        WimResHdr { size: 0, flags: 0, offset: 0, original_size: 0 }
    }
}

/// The 24 bytes of a resource header: the low 56 bits of the size, the
/// flags, the offset and the original size, little-endian.
pub open spec fn res_hdr_image(h: WimResHdr) -> Seq<u8> {
    le64(h.size & 0xFF_FFFF_FFFF_FFFFu64).take(7) + seq![h.flags] + le64(h.offset) + le64(
        h.original_size,
    )
}

/// The resource header stored in the 24 bytes at `off`.
pub open spec fn res_hdr_at(b: Seq<u8>, off: int) -> WimResHdr {
    WimResHdr {
        size: u56_le_at(b, off),
        flags: b[off + 7],
        offset: u64_le_at(b, off + 8),
        original_size: u64_le_at(b, off + 16),
    }
}

impl WimResHdr {
    /// Reads a resource header from its 24 bytes.
    pub fn from_bytes(buf: &[u8]) -> (r: Self)
        requires
            buf@.len() >= 24,
        ensures
            r == res_hdr_at(buf@, 0),
    {
        WimResHdr::from_bytes_at(buf, 0)
    }

    /// Reads the resource header stored at `off`.
    pub fn from_bytes_at(buf: &[u8], off: usize) -> (r: Self)
        requires
            off + 24 <= buf@.len(),
        ensures
            r == res_hdr_at(buf@, off as int),
    {
        let len = buf.len();
        assert(off + 24 <= len);
        WimResHdr {
            size: read_u56_le(buf, off),
            flags: buf[off + 7],
            offset: read_u64_le(buf, off + 8),
            original_size: read_u64_le(buf, off + 16),
        }
    }
}

/// Appends the 24 bytes of a resource header.
pub fn push_res_hdr(v: &mut Vec<u8>, h: &WimResHdr)
    ensures
        final(v)@ == old(v)@ + res_hdr_image(*h),
{
    let size_low = h.size & 0xFF_FFFF_FFFF_FFFFu64;
    let ghost start = v@;
    push_le64(v, size_low);
    let ghost with_size = v@;
    v.pop();
    proof {
        assert(v@ =~= start + le64(size_low).take(7));
    }
    push_byte(v, h.flags);
    push_le64(v, h.offset);
    push_le64(v, h.original_size);
    assert(v@ =~= start + res_hdr_image(*h));
}

/// A lookup table entry: the resource, the part holding it, its reference
/// count and its SHA-1 hash.
#[derive(Debug, Clone, Copy)]
pub struct WimLookupEntry {
    pub res_hdr: WimResHdr,
    pub part_number: u16,
    pub ref_count: u32,
    pub hash: [u8; 20],
}

/// The 50 bytes of a lookup table entry.
pub open spec fn entry_image(e: WimLookupEntry) -> Seq<u8> {
    res_hdr_image(e.res_hdr) + le16(e.part_number) + le32(e.ref_count) + e.hash@
}

impl WimLookupEntry {
    /// Reads a lookup table entry from its 50 bytes.
    pub fn read(buf: &[u8]) -> (r: Self)
        requires
            buf@.len() >= 50,
        ensures
            r.res_hdr == res_hdr_at(buf@, 0),
            r.part_number == u16_le_at(buf@, 24),
            r.ref_count == u32_le_at(buf@, 26),
            r.hash@ == buf@.subrange(30, 50),
    {
        WimLookupEntry::read_at(buf, 0)
    }

    /// Reads the lookup table entry stored at `off`.
    pub fn read_at(buf: &[u8], off: usize) -> (r: Self)
        requires
            off + 50 <= buf@.len(),
        ensures
            r.res_hdr == res_hdr_at(buf@, off as int),
            r.part_number == u16_le_at(buf@, off + 24),
            r.ref_count == u32_le_at(buf@, off + 26),
            r.hash@ == buf@.subrange(off + 30, off + 50),
    {
        let len = buf.len();
        assert(off + 50 <= len);
        let mut hash = [0u8; 20];
        let mut i: usize = 0;
        while i < 20
            invariant
                i <= 20,
                off + 50 <= buf@.len(),
                len == buf@.len(),
                forall|j: int| 0 <= j < i ==> hash@[j] == buf@[off + 30 + j],
            decreases 20 - i,
        {
            hash[i] = buf[off + 30 + i];
            i = i + 1;
        }
        assert(hash@ =~= buf@.subrange(off + 30, off + 50));
        WimLookupEntry {
            res_hdr: WimResHdr::from_bytes_at(buf, off),
            part_number: read_u16_le(buf, off + 24),
            ref_count: read_u32_le(buf, off + 26),
            hash,
        }
    }
}

/// Appends the 50 bytes of a lookup table entry.
pub fn push_entry(v: &mut Vec<u8>, e: &WimLookupEntry)
    ensures
        final(v)@ == old(v)@ + entry_image(*e),
{
    let ghost start = v@;
    push_res_hdr(v, &e.res_hdr);
    push_le16(v, e.part_number);
    push_le32(v, e.ref_count);
    push_all(v, e.hash.as_slice());
    assert(v@ =~= start + entry_image(*e));
}

/// A WIM header.
#[derive(Debug, Clone, Copy)]
pub struct WimHeader {
    pub flags: u32,
    pub compression_size: u32,
    pub guid: [u8; 16],
    pub part_number: u16,
    pub total_parts: u16,
    pub image_count: u32,
    pub lookup_table_resource: WimResHdr,
    pub xml_data_resource: WimResHdr,
    pub boot_index: u32,
    pub integrity_resource: WimResHdr,
}

/// The header's fields as stored in its 208 bytes.
pub open spec fn header_fields(h: WimHeader, b: Seq<u8>) -> bool {
    &&& h.flags == u32_le_at(b, 16)
    &&& h.compression_size == u32_le_at(b, 20)
    &&& h.guid@ == b.subrange(24, 40)
    &&& h.part_number == u16_le_at(b, 40)
    &&& h.total_parts == u16_le_at(b, 42)
    &&& h.image_count == u32_le_at(b, 44)
    &&& h.lookup_table_resource == res_hdr_at(b, 48)
    &&& h.xml_data_resource == res_hdr_at(b, 72)
    &&& h.boot_index == u32_le_at(b, 96)
    &&& h.integrity_resource == res_hdr_at(b, 100)
}

impl WimHeader {
    /// Reads a WIM header from its 208 bytes; the signature must be
    /// "MSWIM\0\0\0".
    pub fn read(buf: &[u8]) -> (r: Result<Self, WimError>)
        requires
            buf@.len() >= 208,
        ensures
            r is Err <==> buf@.subrange(0, 8) != wim_magic(),
            r is Err ==> r matches Err(WimError::InvalidSignature),
            r matches Ok(h) ==> header_fields(h, buf@),
    {
        let magic: [u8; 8] = [0x4D, 0x53, 0x57, 0x49, 0x4D, 0, 0, 0];
        let mut i: usize = 0;
        while i < 8
            invariant
                i <= 8,
                buf@.len() >= 208,
                forall|j: int| 0 <= j < i ==> buf@[j] == wim_magic()[j],
                magic@ == wim_magic(),
            decreases 8 - i,
        {
            if buf[i] != magic[i] {
                assert(buf@.subrange(0, 8)[i as int] != wim_magic()[i as int]);
                return Err(WimError::InvalidSignature);
            }
            i = i + 1;
        }
        assert(buf@.subrange(0, 8) =~= wim_magic());
        let mut guid = [0u8; 16];
        let mut k: usize = 0;
        while k < 16
            invariant
                k <= 16,
                buf@.len() >= 208,
                forall|j: int| 0 <= j < k ==> guid@[j] == buf@[24 + j],
            decreases 16 - k,
        {
            guid[k] = buf[24 + k];
            k = k + 1;
        }
        assert(guid@ =~= buf@.subrange(24, 40));
        Ok(WimHeader {
            flags: read_u32_le(buf, 16),
            compression_size: read_u32_le(buf, 20),
            guid,
            part_number: read_u16_le(buf, 40),
            total_parts: read_u16_le(buf, 42),
            image_count: read_u32_le(buf, 44),
            lookup_table_resource: WimResHdr::from_bytes_at(buf, 48),
            xml_data_resource: WimResHdr::from_bytes_at(buf, 72),
            boot_index: read_u32_le(buf, 96),
            integrity_resource: WimResHdr::from_bytes_at(buf, 100),
        })
    }

    /// Number of entries in the lookup table: its original size in 50-byte
    /// entries.
    pub fn lookup_entry_count(&self) -> (r: u64)
        ensures
            r == self.lookup_table_resource.original_size / 50,
    {
        self.lookup_table_resource.original_size / 50
    }
}

/// Reads the lookup table entries held one after the other in `table`; a
/// trailing partial entry is ignored.
pub fn read_lookup_table(table: &[u8]) -> (r: Vec<WimLookupEntry>)
    ensures
        r@.len() == table@.len() / 50,
        forall|i: int|
            0 <= i < r@.len() ==> (#[trigger] r@[i]).res_hdr == res_hdr_at(table@, 50 * i)
                && r@[i].part_number == u16_le_at(table@, 50 * i + 24) && r@[i].ref_count
                == u32_le_at(table@, 50 * i + 26) && r@[i].hash@ == table@.subrange(
                50 * i + 30,
                50 * i + 50,
            ),
{
    let mut out: Vec<WimLookupEntry> = Vec::new();
    let n = table.len() / 50;
    let mut i: usize = 0;
    while i < n
        invariant
            i <= n,
            n == table@.len() / 50,
            out@.len() == i,
            forall|k: int|
                0 <= k < i ==> (#[trigger] out@[k]).res_hdr == res_hdr_at(table@, 50 * k)
                    && out@[k].part_number == u16_le_at(table@, 50 * k + 24) && out@[k].ref_count
                    == u32_le_at(table@, 50 * k + 26) && out@[k].hash@ == table@.subrange(
                    50 * k + 30,
                    50 * k + 50,
                ),
        decreases n - i,
    {
        let len = table.len();
        proof {
            assert(50 * i + 50 <= table@.len()) by (nonlinear_arith)
                requires
                    i < n,
                    n == table@.len() / 50,
            ;
        }
        out.push(WimLookupEntry::read_at(table, 50 * i));
        i = i + 1;
    }
    out
}


/// The sum of the stored sizes of blobs.
pub open spec fn sizes_sum(blobs: Seq<WimLookupEntry>) -> int
    decreases blobs.len(),
{
    if blobs.len() == 0 {
        0
    } else {
        sizes_sum(blobs.drop_last()) + blobs.last().res_hdr.size
    }
}

/// A part of a spanned WIM: its number, the number of parts, the blobs it
/// carries and the lookup table of the whole set.
pub struct SwmPart {
    pub part_number: u16,
    pub total_parts: u16,
    pub blobs_to_write: Vec<WimLookupEntry>,
    pub lookup_table: Vec<WimLookupEntry>,
}

/// The header of a part: the signature, header size 208, version 1.13, the
/// original flags with the spanned flag (8), the original compression size,
/// GUID and image count, the part's number and the number of parts; the
/// lookup table (flags 2) follows the part's blobs, and in part 1 the
/// original XML data (when there is any) follows the lookup table; then the
/// boot index, and zeros.
pub open spec fn header_image(p: SwmPart, h: WimHeader) -> Seq<u8> {
    let lt_size = (p.lookup_table@.len() * 50) as u64;
    let lt_offset = (208 + sizes_sum(p.blobs_to_write@)) as u64;
    let lookup = WimResHdr { size: lt_size, flags: 2, offset: lt_offset, original_size: lt_size };
    let xml = if p.part_number == 1 && h.xml_data_resource.size > 0 {
        res_hdr_image(WimResHdr { offset: (lt_offset + lt_size) as u64, ..h.xml_data_resource })
    } else {
        zeros(24)
    };
    wim_magic() + le32(208) + le32(0x00010d00) + le32(h.flags | 8u32) + le32(h.compression_size)
        + h.guid@ + le16(p.part_number) + le16(p.total_parts) + le32(h.image_count)
        + res_hdr_image(lookup) + xml + le32(h.boot_index) + zeros(108)
}

/// The bytes of a lookup table: its entries one after the other.
pub open spec fn table_image(t: Seq<WimLookupEntry>) -> Seq<u8>
    decreases t.len(),
{
    if t.len() == 0 {
        Seq::empty()
    } else {
        table_image(t.drop_last()) + entry_image(t.last())
    }
}

impl SwmPart {
    /// The 208 bytes of this part's header (see `header_image`).
    pub fn write_header(&self, original_header: &WimHeader) -> (r: Vec<u8>)
        requires
            208 + sizes_sum(self.blobs_to_write@) + self.lookup_table@.len() * 50 <= u64::MAX,
        ensures
            r@ == header_image(*self, *original_header),
            r@.len() == 208,
    {
        let mut current_offset: u64 = 208;
        let mut i: usize = 0;
        while i < self.blobs_to_write.len()
            invariant
                i <= self.blobs_to_write@.len(),
                current_offset == 208 + sizes_sum(self.blobs_to_write@.take(i as int)),
                208 + sizes_sum(self.blobs_to_write@) + self.lookup_table@.len() * 50 <= u64::MAX,
            decreases self.blobs_to_write@.len() - i,
        {
            proof {
                assert(self.blobs_to_write@.take(i + 1).drop_last() =~= self.blobs_to_write@.take(
                    i as int,
                ));
                lemma_sizes_sum_prefix(self.blobs_to_write@, i + 1);
            }
            current_offset = current_offset + self.blobs_to_write[i].res_hdr.size;
            i = i + 1;
        }
        assert(self.blobs_to_write@.take(i as int) =~= self.blobs_to_write@);
        let lookup_table_size = self.lookup_table.len() as u64 * 50;
        let lookup_res = WimResHdr {
            size: lookup_table_size,
            flags: 0x02,
            offset: current_offset,
            original_size: lookup_table_size,
        };
        let mut buf: Vec<u8> = Vec::new();
        let magic: [u8; 8] = [0x4D, 0x53, 0x57, 0x49, 0x4D, 0, 0, 0];
        push_all(&mut buf, magic.as_slice());
        push_le32(&mut buf, 208);
        push_le32(&mut buf, 0x00010d00);
        push_le32(&mut buf, original_header.flags | 0x00000008);
        push_le32(&mut buf, original_header.compression_size);
        push_all(&mut buf, original_header.guid.as_slice());
        push_le16(&mut buf, self.part_number);
        push_le16(&mut buf, self.total_parts);
        push_le32(&mut buf, original_header.image_count);
        push_res_hdr(&mut buf, &lookup_res);
        if self.part_number == 1 && original_header.xml_data_resource.size > 0 {
            let mut xml_res = original_header.xml_data_resource;
            xml_res.offset = current_offset + lookup_table_size;
            push_res_hdr(&mut buf, &xml_res);
        } else {
            push_zeros(&mut buf, 24);
        }
        push_le32(&mut buf, original_header.boot_index);
        push_zeros(&mut buf, 108);
        assert(magic@ =~= wim_magic());
        assert(buf@ =~= header_image(*self, *original_header));
        buf
    }

    /// The bytes of the lookup table (see `table_image`).
    pub fn write_lookup_table(&self) -> (r: Vec<u8>)
        ensures
            r@ == table_image(self.lookup_table@),
    {
        let mut buf: Vec<u8> = Vec::new();
        let mut i: usize = 0;
        while i < self.lookup_table.len()
            invariant
                i <= self.lookup_table@.len(),
                buf@ == table_image(self.lookup_table@.take(i as int)),
            decreases self.lookup_table@.len() - i,
        {
            assert(self.lookup_table@.take(i + 1).drop_last() =~= self.lookup_table@.take(i as int));
            push_entry(&mut buf, &self.lookup_table[i]);
            i = i + 1;
        }
        assert(self.lookup_table@.take(i as int) =~= self.lookup_table@);
        buf
    }
}

/// A prefix of blobs holds no more bytes than all of them.
proof fn lemma_sizes_sum_prefix(blobs: Seq<WimLookupEntry>, n: int)
    requires
        0 <= n <= blobs.len(),
    ensures
        sizes_sum(blobs.take(n)) <= sizes_sum(blobs),
    decreases blobs.len() - n,
{
    if n < blobs.len() {
        lemma_sizes_sum_prefix(blobs, n + 1);
        assert(blobs.take(n + 1).drop_last() =~= blobs.take(n));
    } else {
        assert(blobs.take(n) =~= blobs);
    }
}


/// Whether a blob is a metadata resource (flag 2).
pub open spec fn is_meta(e: WimLookupEntry) -> bool {
    e.res_hdr.flags & 2u8 != 0
}

/// The metadata blobs, in order.
pub open spec fn metas(s: Seq<WimLookupEntry>) -> Seq<WimLookupEntry>
    decreases s.len(),
{
    if s.len() == 0 {
        Seq::empty()
    } else if is_meta(s.last()) {
        metas(s.drop_last()).push(s.last())
    } else {
        metas(s.drop_last())
    }
}

/// The data blobs, in order.
pub open spec fn datas(s: Seq<WimLookupEntry>) -> Seq<WimLookupEntry>
    decreases s.len(),
{
    if s.len() == 0 {
        Seq::empty()
    } else if is_meta(s.last()) {
        datas(s.drop_last())
    } else {
        datas(s.drop_last()).push(s.last())
    }
}

/// Parts closed so far, the part being filled, and its size.
pub struct Grouping {
    pub parts: Seq<Seq<WimLookupEntry>>,
    pub current: Seq<WimLookupEntry>,
    pub size: int,
}

/// The first `n` data blobs placed after `g`: a blob that would take a
/// non-empty part past the limit starts a new part (of a header's size).
pub open spec fn group_data(data: Seq<WimLookupEntry>, max: u64, g: Grouping, n: nat) -> Grouping
    decreases n,
{
    if n == 0 {
        g
    } else {
        let h = group_data(data, max, g, (n - 1) as nat);
        let e = data[n - 1];
        let h1 = if h.size + e.res_hdr.size > max && h.current.len() > 0 {
            Grouping { parts: h.parts.push(h.current), current: Seq::empty(), size: 208 }
        } else {
            h
        };
        Grouping { current: h1.current.push(e), size: h1.size + e.res_hdr.size, ..h1 }
    }
}

/// The blobs of each part: part 1 starts with the metadata blobs and the
/// XML data; the data blobs follow in order, a new part starting whenever
/// the next blob would take a non-empty part past `max`.
pub open spec fn split_groups(entries: Seq<WimLookupEntry>, xml_size: u64, max: u64) -> Seq<
    Seq<WimLookupEntry>,
> {
    let m = metas(entries);
    let d = datas(entries);
    let g = group_data(
        d,
        max,
        Grouping { parts: Seq::empty(), current: m, size: 208 + sizes_sum(m) + xml_size },
        d.len(),
    );
    if g.current.len() > 0 {
        g.parts.push(g.current)
    } else {
        g.parts
    }
}

/// Where blob `n` of a part starts: after the header and the blobs before
/// it (modulo 2^64).
pub open spec fn blob_offset(blobs: Seq<WimLookupEntry>, n: nat) -> u64
    decreases n,
{
    if n == 0 {
        208
    } else {
        vstd::wrapping::u64_specs::wrapping_add(
            blob_offset(blobs, (n - 1) as nat),
            blobs[n - 1].res_hdr.size,
        )
    }
}

/// The lookup table entries of a part: each blob with the part's number and
/// its offset in the part.
pub open spec fn part_table(blobs: Seq<WimLookupEntry>, part: u16) -> Seq<WimLookupEntry> {
    Seq::new(
        blobs.len(),
        |j: int|
            WimLookupEntry {
                part_number: part,
                res_hdr: WimResHdr { offset: blob_offset(blobs, j as nat), ..blobs[j].res_hdr },
                ..blobs[j]
            },
    )
}

/// The lookup table of the first `k` parts, part after part.
pub open spec fn master_table(groups: Seq<Seq<WimLookupEntry>>, k: nat) -> Seq<WimLookupEntry>
    decreases k,
{
    if k == 0 {
        Seq::empty()
    } else {
        master_table(groups, (k - 1) as nat) + part_table(groups[k - 1], k as u16)
    }
}

/// The blobs of all parts, part after part.
pub open spec fn flatten(groups: Seq<Seq<WimLookupEntry>>) -> Seq<WimLookupEntry>
    decreases groups.len(),
{
    if groups.len() == 0 {
        Seq::empty()
    } else {
        flatten(groups.drop_last()) + groups.last()
    }
}

/// A part as its number, the number of parts, its blobs and the lookup
/// table.
pub open spec fn part_view(p: SwmPart) -> (u16, u16, Seq<WimLookupEntry>, Seq<WimLookupEntry>) {
    (p.part_number, p.total_parts, p.blobs_to_write@, p.lookup_table@)
}

/// A WIM to split: its header and lookup table entries.
pub struct SwmSplitter {
    pub header: WimHeader,
    pub entries: Vec<WimLookupEntry>,
}

/// The part size as kept while grouping: exact below 2^64, and 2^64 for
/// any size from there on (every comparison with a limit below 2^64 then
/// comes out the same).
pub open spec fn clamp(x: int) -> int {
    if x < 0x1_0000_0000_0000_0000 {
        x
    } else {
        0x1_0000_0000_0000_0000
    }
}

impl SwmSplitter {
    /// A splitter over a header and its lookup table.
    pub fn new(header: WimHeader, entries: Vec<WimLookupEntry>) -> (r: Self)
        ensures
            r.header == header,
            r.entries@ == entries@,
    {
        SwmSplitter { header, entries }
    }

    /// Splits the blobs into parts of at most `max_part_size` bytes where a
    /// part can hold them (see `split_groups`); every part carries the
    /// lookup table of the whole set, in which each blob has its part's
    /// number and its offset in that part.
    pub fn split(&self, max_part_size: u64) -> (r: Vec<SwmPart>)
        ensures
            r@.len() == split_groups(
                self.entries@,
                self.header.xml_data_resource.size,
                max_part_size,
            ).len(),
            forall|i: int|
                0 <= i < r@.len() ==> part_view(#[trigger] r@[i]) == (
                    (i + 1) as u16,
                    r@.len() as u16,
                    split_groups(self.entries@, self.header.xml_data_resource.size, max_part_size)[i],
                    master_table(
                        split_groups(self.entries@, self.header.xml_data_resource.size, max_part_size),
                        r@.len() as nat,
                    ),
                ),
    {
        let ghost groups = split_groups(self.entries@, self.header.xml_data_resource.size, max_part_size);
        let groups_v = self.group_blobs(max_part_size);
        let table = master_lookup_table(&groups_v);
        assert(groups_v@.map_values(|p: Vec<WimLookupEntry>| p@) =~= groups);
        let total_parts = groups_v.len() as u16;
        let mut parts: Vec<SwmPart> = Vec::new();
        let mut i: usize = 0;
        while i < groups_v.len()
            invariant
                i <= groups_v@.len(),
                groups_v@.len() == groups.len(),
                forall|k: int| 0 <= k < groups.len() ==> (#[trigger] groups_v@[k])@ == groups[k],
                table@ == master_table(groups, groups.len()),
                total_parts == groups.len() as u16,
                parts@.len() == i,
                forall|k: int|
                    0 <= k < i ==> part_view(#[trigger] parts@[k]) == (
                        (k + 1) as u16,
                        total_parts,
                        groups[k],
                        master_table(groups, groups.len()),
                    ),
            decreases groups_v@.len() - i,
        {
            let blobs = copy_entries(&groups_v[i]);
            let lookup = copy_entries(&table);
            parts.push(
                SwmPart {
                    part_number: (i + 1) as u16,
                    total_parts,
                    blobs_to_write: blobs,
                    lookup_table: lookup,
                },
            );
            i = i + 1;
        }
        parts
    }

    /// The blobs of each part (see `split_groups`).
    fn group_blobs(&self, max_part_size: u64) -> (r: Vec<Vec<WimLookupEntry>>)
        ensures
            r@.len() == split_groups(
                self.entries@,
                self.header.xml_data_resource.size,
                max_part_size,
            ).len(),
            forall|k: int|
                0 <= k < r@.len() ==> (#[trigger] r@[k])@ == split_groups(
                    self.entries@,
                    self.header.xml_data_resource.size,
                    max_part_size,
                )[k],
    {
        let ghost entries = self.entries@;
        let ghost xml = self.header.xml_data_resource.size;
        let ghost m = metas(entries);
        let ghost d = datas(entries);
        let mut parts: Vec<Vec<WimLookupEntry>> = Vec::new();
        let mut current: Vec<WimLookupEntry> = Vec::new();
        let mut size: u128 = 208;
        let mut i: usize = 0;
        while i < self.entries.len()
            invariant
                i <= entries.len(),
                entries == self.entries@,
                current@ == metas(entries.take(i as int)),
                size == clamp(208 + sizes_sum(current@)),
                parts@.len() == 0,
            decreases entries.len() - i,
        {
            let e = self.entries[i];
            assert(entries.take(i + 1).drop_last() =~= entries.take(i as int));
            if e.res_hdr.flags & 0x02 != 0 {
                current.push(e);
                size = clamp_add(size, e.res_hdr.size);
                assert(current@.drop_last() =~= metas(entries.take(i as int)));
            }
            i = i + 1;
        }
        assert(entries.take(entries.len() as int) =~= entries);
        size = clamp_add(size, self.header.xml_data_resource.size);
        let ghost g0 = Grouping { parts: Seq::empty(), current: m, size: 208 + sizes_sum(m) + xml };
        let mut j: usize = 0;
        let mut n: usize = 0;
        proof {
            assert(parts@.map_values(|p: Vec<WimLookupEntry>| p@) =~= g0.parts);
        }
        while j < self.entries.len()
            invariant
                j <= entries.len(),
                entries == self.entries@,
                n <= d.len(),
                d == datas(entries),
                n == datas(entries.take(j as int)).len(),
                n <= j,
                datas(entries.take(j as int)) == d.take(n as int),
                parts@.map_values(|p: Vec<WimLookupEntry>| p@) == group_data(d, max_part_size, g0, n as nat).parts,
                current@ == group_data(d, max_part_size, g0, n as nat).current,
                size == clamp(group_data(d, max_part_size, g0, n as nat).size),
                group_data(d, max_part_size, g0, n as nat).size >= 0,
            decreases entries.len() - j,
        {
            let e = self.entries[j];
            assert(entries.take(j + 1).drop_last() =~= entries.take(j as int));
            if e.res_hdr.flags & 0x02 == 0 {
                proof {
                    lemma_datas_prefix(entries, j as int);
                    lemma_datas_is_prefix(entries, j + 1);
                    assert(datas(entries.take(j + 1)).len() == n + 1);
                    assert(d.take(n + 1) == d.take(n as int).push(e));
                    assert(d.take(n + 1)[n as int] == e);
                    assert(d[n as int] == e);
                }
                let ghost h = group_data(d, max_part_size, g0, n as nat);
                assert((size + e.res_hdr.size > max_part_size) == (h.size + e.res_hdr.size > max_part_size));
                if size + e.res_hdr.size as u128 > max_part_size as u128 && current.len() > 0 {
                    let mut closed: Vec<WimLookupEntry> = Vec::new();
                    std::mem::swap(&mut closed, &mut current);
                    let ghost before = parts@;
                    parts.push(closed);
                    assert(parts@.map_values(|p: Vec<WimLookupEntry>| p@) =~= before.map_values(
                        |p: Vec<WimLookupEntry>| p@,
                    ).push(h.current));
                    size = 208;
                    assert(size == clamp(208));
                }
                assert(size == clamp(
                    (if h.size + e.res_hdr.size > max_part_size && h.current.len() > 0 {
                        208
                    } else {
                        h.size
                    }),
                ));
                current.push(e);
                size = clamp_add(size, e.res_hdr.size);
                n = n + 1;
            }
            j = j + 1;
        }
        assert(entries.take(entries.len() as int) =~= entries);
        assert(d.take(n as int) =~= d);
        if current.len() > 0 {
            let ghost before = parts@;
            parts.push(current);
            assert(parts@.map_values(|p: Vec<WimLookupEntry>| p@) =~= before.map_values(
                |p: Vec<WimLookupEntry>| p@,
            ).push(group_data(d, max_part_size, g0, n as nat).current));
        }
        assert forall|k: int| 0 <= k < parts@.len() implies (#[trigger] parts@[k])@
            == split_groups(entries, xml, max_part_size)[k] by {
            assert(parts@.map_values(|p: Vec<WimLookupEntry>| p@)[k] == parts@[k]@);
        }
        parts
    }
}

/// Adds a size to a clamped part size.
fn clamp_add(size: u128, add: u64) -> (r: u128)
    requires
        size <= 0x1_0000_0000_0000_0000,
    ensures
        forall|x: int| x >= 0 && size == #[trigger] clamp(x) ==> r == clamp(x + add),
{
    let s = size + add as u128;
    if s > 0x1_0000_0000_0000_0000 {
        0x1_0000_0000_0000_0000
    } else {
        s
    }
}

/// Taking one more entry adds it to the data blobs when it is one.
proof fn lemma_datas_prefix(entries: Seq<WimLookupEntry>, j: int)
    requires
        0 <= j < entries.len(),
        !is_meta(entries[j]),
    ensures
        datas(entries.take(j + 1)) == datas(entries.take(j)).push(entries[j]),
{
    assert(entries.take(j + 1).drop_last() =~= entries.take(j));
}

/// The data blobs of a prefix of the entries are a prefix of all data
/// blobs.
proof fn lemma_datas_is_prefix(entries: Seq<WimLookupEntry>, j: int)
    requires
        0 <= j <= entries.len(),
    ensures
        datas(entries.take(j)).len() <= datas(entries).len(),
        datas(entries).take(datas(entries.take(j)).len() as int) == datas(entries.take(j)),
    decreases entries.len() - j,
{
    if j == entries.len() {
        assert(entries.take(j) =~= entries);
        assert(datas(entries).take(datas(entries).len() as int) =~= datas(entries));
    } else {
        lemma_datas_is_prefix(entries, j + 1);
        assert(entries.take(j + 1).drop_last() =~= entries.take(j));
        let a = datas(entries.take(j));
        let b = datas(entries.take(j + 1));
        assert(datas(entries).take(a.len() as int) =~= b.take(a.len() as int));
        assert(b.take(a.len() as int) =~= a);
    }
}

/// A copy of a list of entries.
fn copy_entries(v: &Vec<WimLookupEntry>) -> (r: Vec<WimLookupEntry>)
    ensures
        r@ == v@,
{
    let mut out: Vec<WimLookupEntry> = Vec::new();
    let mut i: usize = 0;
    while i < v.len()
        invariant
            i <= v@.len(),
            out@ == v@.take(i as int),
        decreases v@.len() - i,
    {
        out.push(v[i]);
        i = i + 1;
        assert(out@ =~= v@.take(i as int));
    }
    assert(v@.take(v@.len() as int) =~= v@);
    out
}

/// The lookup table of all parts (see `master_table`).
fn master_lookup_table(groups: &Vec<Vec<WimLookupEntry>>) -> (r: Vec<WimLookupEntry>)
    ensures
        r@ == master_table(groups@.map_values(|p: Vec<WimLookupEntry>| p@), groups@.len() as nat),
{
    let ghost gs = groups@.map_values(|p: Vec<WimLookupEntry>| p@);
    let mut table: Vec<WimLookupEntry> = Vec::new();
    let mut i: usize = 0;
    while i < groups.len()
        invariant
            i <= groups@.len(),
            gs == groups@.map_values(|p: Vec<WimLookupEntry>| p@),
            table@ == master_table(gs, i as nat),
        decreases groups@.len() - i,
    {
        let blobs = &groups[i];
        let part_num = (i + 1) as u16;
        let mut offset: u64 = 208;
        let mut j: usize = 0;
        let ghost base = table@;
        assert(gs[i as int] == blobs@);
        while j < blobs.len()
            invariant
                j <= blobs@.len(),
                gs[i as int] == blobs@,
                part_num == (i + 1) as u16,
                offset == blob_offset(blobs@, j as nat),
                table@ == base + part_table(blobs@, part_num).take(j as int),
            decreases blobs@.len() - j,
        {
            let blob = blobs[j];
            let mut master_entry = blob;
            master_entry.part_number = part_num;
            master_entry.res_hdr.offset = offset;
            table.push(master_entry);
            assert(table@ =~= base + part_table(blobs@, part_num).take(j + 1));
            offset = offset.wrapping_add(blob.res_hdr.size);
            j = j + 1;
        }
        assert(part_table(blobs@, part_num).take(j as int) =~= part_table(blobs@, part_num));
        i = i + 1;
    }
    table
}


/// A part other than the first that holds two or more blobs fits the
/// limit, header included.
pub open spec fn part_fits(part: Seq<WimLookupEntry>, max: u64) -> bool {
    part.len() >= 2 ==> 208 + sizes_sum(part) <= max
}

/// What grouping keeps: the blobs in order, no empty part, and the parts
/// after the first fitting the limit.
proof fn lemma_group_data(data: Seq<WimLookupEntry>, max: u64, g: Grouping, n: nat)
    requires
        n <= data.len(),
        forall|i: int| 0 <= i < g.parts.len() ==> (#[trigger] g.parts[i]).len() > 0,
        forall|i: int| 1 <= i < g.parts.len() ==> part_fits(#[trigger] g.parts[i], max),
        g.parts.len() >= 1 ==> g.size == 208 + sizes_sum(g.current) && part_fits(g.current, max),
    ensures
        flatten(group_data(data, max, g, n).parts) + group_data(data, max, g, n).current
            == flatten(g.parts) + g.current + data.take(n as int),
        forall|i: int|
            0 <= i < group_data(data, max, g, n).parts.len() ==> (#[trigger] group_data(
                data,
                max,
                g,
                n,
            ).parts[i]).len() > 0,
        forall|i: int|
            1 <= i < group_data(data, max, g, n).parts.len() ==> part_fits(
                #[trigger] group_data(data, max, g, n).parts[i],
                max,
            ),
        group_data(data, max, g, n).parts.len() >= 1 ==> group_data(data, max, g, n).size == 208
            + sizes_sum(group_data(data, max, g, n).current) && part_fits(
            group_data(data, max, g, n).current,
            max,
        ),
        n > 0 ==> group_data(data, max, g, n).current.len() > 0,
    decreases n,
{
    if n == 0 {
        assert(data.take(0) =~= Seq::<WimLookupEntry>::empty());
        assert(flatten(g.parts) + g.current + data.take(0) =~= flatten(g.parts) + g.current);
    } else {
        lemma_group_data(data, max, g, (n - 1) as nat);
        let h = group_data(data, max, g, (n - 1) as nat);
        let e = data[n - 1];
        assert(data.take(n as int) =~= data.take(n - 1).push(e));
        if h.size + e.res_hdr.size > max && h.current.len() > 0 {
            let parts2 = h.parts.push(h.current);
            assert(parts2.drop_last() =~= h.parts);
            assert(flatten(parts2) == flatten(h.parts) + h.current);
            let cur = Seq::<WimLookupEntry>::empty().push(e);
            assert(cur.drop_last() =~= Seq::<WimLookupEntry>::empty());
            assert(cur.last() == e);
            assert(sizes_sum(Seq::<WimLookupEntry>::empty()) == 0);
            assert(sizes_sum(cur) == e.res_hdr.size);
            assert(flatten(parts2) + cur =~= flatten(g.parts) + g.current + data.take(n as int));
            assert forall|i: int| 1 <= i < parts2.len() implies part_fits(#[trigger] parts2[i], max) by {
                if i < h.parts.len() {
                    assert(parts2[i] == h.parts[i]);
                }
            }
            assert forall|i: int| 0 <= i < parts2.len() implies (#[trigger] parts2[i]).len() > 0 by {
                if i < h.parts.len() {
                    assert(parts2[i] == h.parts[i]);
                }
            }
        } else {
            let cur = h.current.push(e);
            assert(cur.drop_last() =~= h.current);
            assert(cur.last() == e);
            assert(sizes_sum(cur) == sizes_sum(h.current) + e.res_hdr.size);
            assert((flatten(h.parts) + h.current).push(e) =~= flatten(h.parts) + cur);
            assert((flatten(g.parts) + g.current + data.take(n - 1)).push(e) =~= flatten(g.parts)
                + g.current + data.take(n as int));
        }
    }
}

/// Splitting keeps every blob exactly once, in order, the metadata blobs
/// first: the parts' blobs, part after part, are the metadata blobs
/// followed by the data blobs.
pub proof fn lemma_split_keeps_blobs(entries: Seq<WimLookupEntry>, xml_size: u64, max: u64)
    ensures
        flatten(split_groups(entries, xml_size, max)) == metas(entries) + datas(entries),
        forall|i: int|
            0 <= i < split_groups(entries, xml_size, max).len() ==> (#[trigger] split_groups(
                entries,
                xml_size,
                max,
            )[i]).len() > 0,
{
    let m = metas(entries);
    let d = datas(entries);
    let g0 = Grouping { parts: Seq::empty(), current: m, size: 208 + sizes_sum(m) + xml_size };
    lemma_group_data(d, max, g0, d.len());
    let g = group_data(d, max, g0, d.len());
    assert(d.take(d.len() as int) =~= d);
    assert(flatten(g0.parts) + g0.current + d =~= m + d);
    if g.current.len() > 0 {
        let parts2 = g.parts.push(g.current);
        assert(parts2.drop_last() =~= g.parts);
        assert forall|i: int| 0 <= i < parts2.len() implies (#[trigger] parts2[i]).len() > 0 by {
            if i < g.parts.len() {
                assert(parts2[i] == g.parts[i]);
            }
        }
    } else {
        assert(flatten(g.parts) + g.current =~= flatten(g.parts));
    }
}

/// Every part after the first that holds two or more blobs fits the limit,
/// its header included: a data blob only joins a part when the part stays
/// within the limit.
pub proof fn lemma_split_parts_fit(entries: Seq<WimLookupEntry>, xml_size: u64, max: u64)
    ensures
        forall|i: int|
            1 <= i < split_groups(entries, xml_size, max).len() ==> part_fits(
                #[trigger] split_groups(entries, xml_size, max)[i],
                max,
            ),
{
    let m = metas(entries);
    let d = datas(entries);
    let g0 = Grouping { parts: Seq::empty(), current: m, size: 208 + sizes_sum(m) + xml_size };
    lemma_group_data(d, max, g0, d.len());
    let g = group_data(d, max, g0, d.len());
    if g.current.len() > 0 {
        let parts2 = g.parts.push(g.current);
        assert forall|i: int| 1 <= i < parts2.len() implies part_fits(#[trigger] parts2[i], max) by {
            if i < g.parts.len() {
                assert(parts2[i] == g.parts[i]);
            }
        }
    }
}

/// A resource header reads back as it was written, when its size fits in
/// the 56 bits stored.
pub proof fn lemma_res_hdr_roundtrip(h: WimResHdr)
    requires
        h.size < 0x100_0000_0000_0000,
    ensures
        res_hdr_at(res_hdr_image(h), 0) == h,
{
    let b = res_hdr_image(h);
    let s = h.size;
    let o = h.offset;
    let q = h.original_size;
    assert(b.len() == 24);
    assert(b[7] == h.flags);
    assert(u56_le_at(b, 0) == s) by {
        assert(b[0] == (s & 0xFF_FFFF_FFFF_FFFFu64) as u8);
        assert(b[1] == ((s & 0xFF_FFFF_FFFF_FFFFu64) >> 8u64) as u8);
        assert(b[2] == ((s & 0xFF_FFFF_FFFF_FFFFu64) >> 16u64) as u8);
        assert(b[3] == ((s & 0xFF_FFFF_FFFF_FFFFu64) >> 24u64) as u8);
        assert(b[4] == ((s & 0xFF_FFFF_FFFF_FFFFu64) >> 32u64) as u8);
        assert(b[5] == ((s & 0xFF_FFFF_FFFF_FFFFu64) >> 40u64) as u8);
        assert(b[6] == ((s & 0xFF_FFFF_FFFF_FFFFu64) >> 48u64) as u8);
        lemma_u56_bytes(s);
    }
    assert(u64_le_at(b, 8) == o) by {
        assert(b.subrange(8, 16) =~= le64(o));
        lemma_u64_bytes(o);
        assert(b[8] == o as u8);
    }
    assert(u64_le_at(b, 16) == q) by {
        assert(b.subrange(16, 24) =~= le64(q));
        lemma_u64_bytes(q);
        assert(b[16] == q as u8);
    }
}

proof fn lemma_u56_bytes(s: u64)
    requires
        s < 0x100_0000_0000_0000,
    ensures
        ((s & 0xFF_FFFF_FFFF_FFFFu64) as u8 as u64) | ((((s & 0xFF_FFFF_FFFF_FFFFu64) >> 8u64) as u8
            as u64) << 8u64) | ((((s & 0xFF_FFFF_FFFF_FFFFu64) >> 16u64) as u8 as u64) << 16u64)
            | ((((s & 0xFF_FFFF_FFFF_FFFFu64) >> 24u64) as u8 as u64) << 24u64) | ((((s
            & 0xFF_FFFF_FFFF_FFFFu64) >> 32u64) as u8 as u64) << 32u64) | ((((s
            & 0xFF_FFFF_FFFF_FFFFu64) >> 40u64) as u8 as u64) << 40u64) | ((((s
            & 0xFF_FFFF_FFFF_FFFFu64) >> 48u64) as u8 as u64) << 48u64) == s,
{
    assert(((s & 0xFF_FFFF_FFFF_FFFFu64) as u8 as u64) | ((((s & 0xFF_FFFF_FFFF_FFFFu64) >> 8u64)
        as u8 as u64) << 8u64) | ((((s & 0xFF_FFFF_FFFF_FFFFu64) >> 16u64) as u8 as u64) << 16u64)
        | ((((s & 0xFF_FFFF_FFFF_FFFFu64) >> 24u64) as u8 as u64) << 24u64) | ((((s
        & 0xFF_FFFF_FFFF_FFFFu64) >> 32u64) as u8 as u64) << 32u64) | ((((s
        & 0xFF_FFFF_FFFF_FFFFu64) >> 40u64) as u8 as u64) << 40u64) | ((((s
        & 0xFF_FFFF_FFFF_FFFFu64) >> 48u64) as u8 as u64) << 48u64) == s) by (bit_vector)
        requires
            s < 0x100_0000_0000_0000,
    ;
}

proof fn lemma_u64_bytes(x: u64)
    ensures
        (x as u8 as u64) | (((x >> 8u64) as u8 as u64) << 8u64) | (((x >> 16u64) as u8 as u64)
            << 16u64) | (((x >> 24u64) as u8 as u64) << 24u64) | (((x >> 32u64) as u8 as u64)
            << 32u64) | (((x >> 40u64) as u8 as u64) << 40u64) | (((x >> 48u64) as u8 as u64)
            << 48u64) | (((x >> 56u64) as u8 as u64) << 56u64) == x,
{
    assert((x as u8 as u64) | (((x >> 8u64) as u8 as u64) << 8u64) | (((x >> 16u64) as u8 as u64)
        << 16u64) | (((x >> 24u64) as u8 as u64) << 24u64) | (((x >> 32u64) as u8 as u64)
        << 32u64) | (((x >> 40u64) as u8 as u64) << 40u64) | (((x >> 48u64) as u8 as u64)
        << 48u64) | (((x >> 56u64) as u8 as u64) << 56u64) == x) by (bit_vector);
}

/// A resource header is read from its 24 bytes alone.
proof fn lemma_res_hdr_window(a: Seq<u8>, w: Seq<u8>, off: int)
    requires
        0 <= off,
        off + 24 <= a.len(),
        w == a.subrange(off, off + 24),
    ensures
        res_hdr_at(a, off) == res_hdr_at(w, 0),
{
    assert forall|k: int| 0 <= k < 24 implies a[off + k] == #[trigger] w[k] by {}
    assert(a[off] == w[0] && a[off + 1] == w[1] && a[off + 2] == w[2] && a[off + 3] == w[3]);
    assert(a[off + 4] == w[4] && a[off + 5] == w[5] && a[off + 6] == w[6] && a[off + 7] == w[7]);
    assert(a[off + 8] == w[8] && a[off + 9] == w[9] && a[off + 10] == w[10] && a[off + 11] == w[11]);
    assert(a[off + 12] == w[12] && a[off + 13] == w[13] && a[off + 14] == w[14] && a[off + 15]
        == w[15]);
    assert(a[off + 16] == w[16] && a[off + 17] == w[17] && a[off + 18] == w[18] && a[off + 19]
        == w[19]);
    assert(a[off + 20] == w[20] && a[off + 21] == w[21] && a[off + 22] == w[22] && a[off + 23]
        == w[23]);
}

/// A 16-bit value is read from its two bytes alone.
proof fn lemma_u16_window(a: Seq<u8>, w: Seq<u8>, off: int)
    requires
        0 <= off,
        off + 2 <= a.len(),
        w == a.subrange(off, off + 2),
    ensures
        u16_le_at(a, off) == u16_le_at(w, 0),
{
    assert(a[off] == w[0] && a[off + 1] == w[1]);
}

/// What a lookup table entry's reading finds at `off` in `b` is what it
/// finds in the entry's own 50 bytes.
proof fn lemma_entry_window(b: Seq<u8>, off: int, e: WimLookupEntry)
    requires
        0 <= off,
        off + 50 <= b.len(),
        b.subrange(off, off + 50) == entry_image(e),
        e.res_hdr.size < 0x100_0000_0000_0000,
    ensures
        res_hdr_at(b, off) == e.res_hdr,
        u16_le_at(b, off + 24) == e.part_number,
        u32_le_at(b, off + 26) == e.ref_count,
        b.subrange(off + 30, off + 50) == e.hash@,
{
    let img = entry_image(e);
    assert(res_hdr_image(e.res_hdr).len() == 24);
    assert(b.subrange(off, off + 24) =~= res_hdr_image(e.res_hdr)) by {
        assert(img.subrange(0, 24) =~= res_hdr_image(e.res_hdr));
        assert(b.subrange(off, off + 24) =~= img.subrange(0, 24));
    }
    lemma_res_hdr_window(b, res_hdr_image(e.res_hdr), off);
    lemma_res_hdr_roundtrip(e.res_hdr);
    assert(b.subrange(off + 24, off + 26) =~= le16(e.part_number)) by {
        assert(b.subrange(off + 24, off + 26) =~= img.subrange(24, 26));
    }
    lemma_u16_window(b, le16(e.part_number), off + 24);
    crate::bytes::lemma_le16_roundtrip(e.part_number);
    assert(b.subrange(off + 26, off + 30) =~= le32(e.ref_count)) by {
        assert(b.subrange(off + 26, off + 30) =~= img.subrange(26, 30));
    }
    crate::bytes::lemma_u32_le_at_window(b, le32(e.ref_count), off + 26);
    crate::bytes::lemma_le32_roundtrip(e.ref_count);
    assert(b.subrange(off + 30, off + 50) =~= img.subrange(30, 50));
}

/// Reading a lookup table gives back the entries written: every entry's
/// resource, part number, reference count and hash (resources store 56-bit
/// sizes).
#[verifier::spinoff_prover]
#[verifier::rlimit(30)]
pub proof fn lemma_table_reads_back(t: Seq<WimLookupEntry>)
    requires
        forall|i: int| 0 <= i < t.len() ==> (#[trigger] t[i]).res_hdr.size < 0x100_0000_0000_0000,
    ensures
        table_image(t).len() == 50 * t.len(),
        forall|i: int|
            0 <= i < t.len() ==> {
                &&& res_hdr_at(table_image(t), 50 * i) == (#[trigger] t[i]).res_hdr
                &&& u16_le_at(table_image(t), 50 * i + 24) == t[i].part_number
                &&& u32_le_at(table_image(t), 50 * i + 26) == t[i].ref_count
                &&& table_image(t).subrange(50 * i + 30, 50 * i + 50) == t[i].hash@
            },
    decreases t.len(),
{
    if t.len() > 0 {
        let front = t.drop_last();
        let b = table_image(t);
        let fb = table_image(front);
        assert forall|i: int| 0 <= i < front.len() implies (#[trigger] front[i]).res_hdr.size
            < 0x100_0000_0000_0000 by {
            assert(front[i] == t[i]);
        }
        lemma_table_reads_back(front);
        assert(b == fb + entry_image(t.last()));
        assert(entry_image(t.last()).len() == 50);
        assert forall|i: int| 0 <= i < t.len() implies {
            &&& res_hdr_at(b, 50 * i) == (#[trigger] t[i]).res_hdr
            &&& u16_le_at(b, 50 * i + 24) == t[i].part_number
            &&& u32_le_at(b, 50 * i + 26) == t[i].ref_count
            &&& b.subrange(50 * i + 30, 50 * i + 50) == t[i].hash@
        } by {
            if i < front.len() {
                assert(front[i] == t[i]);
                lemma_res_hdr_window(b, b.subrange(50 * i, 50 * i + 24), 50 * i);
                lemma_res_hdr_window(fb, fb.subrange(50 * i, 50 * i + 24), 50 * i);
                assert(b.subrange(50 * i, 50 * i + 24) =~= fb.subrange(50 * i, 50 * i + 24));
                lemma_u16_window(b, b.subrange(50 * i + 24, 50 * i + 26), 50 * i + 24);
                lemma_u16_window(fb, fb.subrange(50 * i + 24, 50 * i + 26), 50 * i + 24);
                assert(b.subrange(50 * i + 24, 50 * i + 26) =~= fb.subrange(50 * i + 24, 50 * i + 26));
                crate::bytes::lemma_u32_le_at_window(b, b.subrange(50 * i + 26, 50 * i + 30), 50 * i + 26);
                crate::bytes::lemma_u32_le_at_window(fb, fb.subrange(50 * i + 26, 50 * i + 30), 50 * i + 26);
                assert(b.subrange(50 * i + 26, 50 * i + 30) =~= fb.subrange(50 * i + 26, 50 * i + 30));
                assert(b.subrange(50 * i + 30, 50 * i + 50) =~= fb.subrange(50 * i + 30, 50 * i + 50));
            } else {
                assert(i == front.len());
                assert(t[i] == t.last());
                assert(b.subrange(50 * i, 50 * i + 50) =~= entry_image(t.last()));
                lemma_entry_window(b, 50 * i, t[i]);
            }
        }
    }
}

/// The header a part's 208 bytes describe (see `header_image`): the
/// source header's flags with the spanned flag, its compression size, GUID,
/// image count and boot index; the part's number and the number of parts;
/// the part's lookup table after its blobs; the XML data after the table in
/// part 1, none elsewhere; no integrity table.
pub open spec fn part_header_of(p: SwmPart, h: WimHeader) -> WimHeader {
    let lt_size = (p.lookup_table@.len() * 50) as u64;
    let lt_offset = (208 + sizes_sum(p.blobs_to_write@)) as u64;
    let none = WimResHdr { size: 0, flags: 0, offset: 0, original_size: 0 };
    WimHeader {
        flags: h.flags | 8u32,
        compression_size: h.compression_size,
        guid: h.guid,
        part_number: p.part_number,
        total_parts: p.total_parts,
        image_count: h.image_count,
        lookup_table_resource: WimResHdr {
            size: lt_size,
            flags: 2,
            offset: lt_offset,
            original_size: lt_size,
        },
        xml_data_resource: if p.part_number == 1 && h.xml_data_resource.size > 0 {
            WimResHdr { offset: (lt_offset + lt_size) as u64, ..h.xml_data_resource }
        } else {
            none
        },
        boot_index: h.boot_index,
        integrity_resource: none,
    }
}

/// Reading a part's header gives back the header it was written for: its
/// signature is valid (so `WimHeader::read` succeeds) and its fields are
/// those of `part_header_of`.
pub proof fn lemma_part_header_reads_back(p: SwmPart, h: WimHeader)
    requires
        208 + sizes_sum(p.blobs_to_write@) + p.lookup_table@.len() * 50 <= u64::MAX,
        p.lookup_table@.len() * 50 < 0x100_0000_0000_0000,
        h.xml_data_resource.size < 0x100_0000_0000_0000,
    ensures
        header_image(p, h).len() == 208,
        header_image(p, h).subrange(0, 8) == wim_magic(),
        header_fields(part_header_of(p, h), header_image(p, h)),
{
    let b = header_image(p, h);
    let ph = part_header_of(p, h);
    let lookup = ph.lookup_table_resource;
    let xml = if p.part_number == 1 && h.xml_data_resource.size > 0 {
        res_hdr_image(WimResHdr { offset: (ph.lookup_table_resource.offset + ph.lookup_table_resource.size) as u64, ..h.xml_data_resource })
    } else {
        zeros(24)
    };
    assert(res_hdr_image(lookup).len() == 24);
    assert(xml.len() == 24);
    assert(b =~= wim_magic() + le32(208) + le32(0x00010d00) + le32(h.flags | 8u32) + le32(
        h.compression_size,
    ) + h.guid@ + le16(p.part_number) + le16(p.total_parts) + le32(h.image_count)
        + res_hdr_image(lookup) + xml + le32(h.boot_index) + zeros(108));
    assert(b.subrange(0, 8) =~= wim_magic());
    // the 32-bit fields
    assert(b.subrange(16, 20) =~= le32(h.flags | 8u32));
    crate::bytes::lemma_u32_le_at_window(b, le32(h.flags | 8u32), 16);
    crate::bytes::lemma_le32_roundtrip(h.flags | 8u32);
    assert(b.subrange(20, 24) =~= le32(h.compression_size));
    crate::bytes::lemma_u32_le_at_window(b, le32(h.compression_size), 20);
    crate::bytes::lemma_le32_roundtrip(h.compression_size);
    assert(b.subrange(44, 48) =~= le32(h.image_count));
    crate::bytes::lemma_u32_le_at_window(b, le32(h.image_count), 44);
    crate::bytes::lemma_le32_roundtrip(h.image_count);
    assert(b.subrange(96, 100) =~= le32(h.boot_index));
    crate::bytes::lemma_u32_le_at_window(b, le32(h.boot_index), 96);
    crate::bytes::lemma_le32_roundtrip(h.boot_index);
    // the GUID and the 16-bit fields
    assert(b.subrange(24, 40) =~= h.guid@);
    assert(b.subrange(40, 42) =~= le16(p.part_number));
    lemma_u16_window(b, le16(p.part_number), 40);
    crate::bytes::lemma_le16_roundtrip(p.part_number);
    assert(b.subrange(42, 44) =~= le16(p.total_parts));
    lemma_u16_window(b, le16(p.total_parts), 42);
    crate::bytes::lemma_le16_roundtrip(p.total_parts);
    // the resource headers
    assert(b.subrange(48, 72) =~= res_hdr_image(lookup));
    lemma_res_hdr_window(b, res_hdr_image(lookup), 48);
    lemma_res_hdr_roundtrip(lookup);
    assert(b.subrange(72, 96) =~= xml);
    lemma_res_hdr_window(b, xml, 72);
    if p.part_number == 1 && h.xml_data_resource.size > 0 {
        lemma_res_hdr_roundtrip(ph.xml_data_resource);
    } else {
        lemma_res_hdr_of_zeros();
    }
    assert(b.subrange(100, 124) =~= zeros(24));
    lemma_res_hdr_window(b, zeros(24), 100);
    lemma_res_hdr_of_zeros();
}

/// Twenty-four zero bytes hold the empty resource header.
proof fn lemma_res_hdr_of_zeros()
    ensures
        res_hdr_at(zeros(24), 0) == (WimResHdr { size: 0, flags: 0, offset: 0, original_size: 0 }),
{
    let z = zeros(24);
    assert(forall|k: int| 0 <= k < 24 ==> #[trigger] z[k] == 0u8);
    assert(z[0] == 0 && z[1] == 0 && z[2] == 0 && z[3] == 0 && z[4] == 0 && z[5] == 0 && z[6] == 0);
    assert(z[8] == 0 && z[9] == 0 && z[10] == 0 && z[11] == 0 && z[12] == 0 && z[13] == 0 && z[14]
        == 0 && z[15] == 0);
    assert(z[16] == 0 && z[17] == 0 && z[18] == 0 && z[19] == 0 && z[20] == 0 && z[21] == 0 && z[22]
        == 0 && z[23] == 0);
    assert(z[7] == 0);
    let zb: u8 = 0;
    assert(crate::bytes::u64_le_lo(z, 0) == 0) by {
        assert(((zb as u64) | ((zb as u64) << 8u64) | ((zb as u64) << 16u64) | ((zb as u64)
            << 24u64)) == 0) by (bit_vector)
            requires zb == 0;
    }
    assert(((0u64 | ((zb as u64) << 32u64) | ((zb as u64) << 40u64) | ((zb as u64) << 48u64))) == 0)
        by (bit_vector)
        requires zb == 0;
    assert(((0u64 | ((zb as u64) << 32u64) | ((zb as u64) << 40u64) | ((zb as u64) << 48u64) | ((zb
        as u64) << 56u64))) == 0) by (bit_vector)
        requires zb == 0;
}

} // verus!
