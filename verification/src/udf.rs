//! Minimal read-only UDF (ECMA-167) parsing tailored for Windows ISO
//! extraction.
//!
//! Implements just enough of UDF to traverse the directory tree inside a
//! Windows installation ISO and locate individual files: the anchor, the
//! volume descriptor sequence, the file set descriptor, file entries and
//! file identifier descriptors, each parsed from the bytes of a sector. The
//! caller reads the sectors these name.

use vstd::prelude::*;
use crate::error::IoError;
use crate::bytes::{u16_le_at, u32_le_at, u64_le_at, read_u16_le, read_u32_le, read_u64_le};
use vstd::string::StrSliceExecFns;
use crate::text::{push_char, push_decimal, push_text, string_of, decimal, chars_of, string_from_chars};

verus! {

/// Bytes per sector.
pub const SECTOR_SIZE: u64 = 2048;

/// Sector of the Anchor Volume Descriptor Pointer.
pub const AVDP_SECTOR: u64 = 256;

/// Descriptor tag identifiers (ECMA-167).
pub const TAG_ANCHOR: u16 = 2;
pub const TAG_PARTITION_DESC: u16 = 5;
pub const TAG_LOGICAL_VOLUME_DESC: u16 = 6;
pub const TAG_TERMINATING_DESC: u16 = 8;
pub const TAG_FILE_SET_DESC: u16 = 256;
pub const TAG_FILE_IDENT_DESC: u16 = 257;
pub const TAG_FILE_ENTRY: u16 = 261;
pub const TAG_EXT_FILE_ENTRY: u16 = 266;

/// File identifier characteristics (ECMA-167 14.4.3).
pub const FID_CHAR_DIRECTORY: u8 = 0x02;
pub const FID_CHAR_DELETED: u8 = 0x04;
pub const FID_CHAR_PARENT: u8 = 0x08;

/// UDF parsing errors; an I/O failure is carried as the text of the
/// underlying error.
#[derive(Debug)]
pub enum UdfError {
    Io(IoError),
    InvalidAvdp,
    MissingDescriptor(&'static str),
    Parse(String),
}

/// The text of a UDF error.
pub open spec fn udf_error_text(e: UdfError) -> Seq<char> {
    match e {
        UdfError::Io(e) => "I/O error: "@ + e.message@,
        UdfError::InvalidAvdp => "Not a valid UDF image (AVDP not found at sector 256)"@,
        UdfError::MissingDescriptor(d) => "Missing required descriptor: "@ + d@,
        UdfError::Parse(m) => "Parse error: "@ + m@,
    }
}

impl UdfError {
    /// The text of the error.
    pub fn message(&self) -> (r: String)
        ensures
            r@ == udf_error_text(*self),
    {
        match self {
            UdfError::Io(e) => {
                let mut s = string_of("I/O error: ");
                push_text(&mut s, e.message.as_str());
                s
            },
            UdfError::InvalidAvdp => string_of("Not a valid UDF image (AVDP not found at sector 256)"),
            UdfError::MissingDescriptor(d) => {
                let mut s = string_of("Missing required descriptor: ");
                push_text(&mut s, d);
                s
            },
            UdfError::Parse(m) => {
                let mut s = string_of("Parse error: ");
                push_text(&mut s, m.as_str());
                s
            },
        }
    }
}

/// Anchor Volume Descriptor Pointer: the length and location of the main
/// volume descriptor sequence, or `InvalidAvdp` when the sector is not an
/// anchor.
pub fn parse_avdp(sector: &[u8]) -> (r: Result<(u32, u32), UdfError>)
    requires
        sector@.len() == SECTOR_SIZE,
    ensures
        r is Err <==> u16_le_at(sector@, 0) != TAG_ANCHOR,
        r is Err ==> r matches Err(UdfError::InvalidAvdp),
        r matches Ok(v) ==> v.0 == u32_le_at(sector@, 16) && v.1 == u32_le_at(sector@, 20),
{
    if read_u16_le(sector, 0) != TAG_ANCHOR {
        return Err(UdfError::InvalidAvdp);
    }
    Ok((read_u32_le(sector, 16), read_u32_le(sector, 20)))
}

/// Number of sectors in a volume descriptor sequence of `vds_len` bytes.
pub fn vds_sector_count(vds_len: u32) -> (r: u32)
    ensures
        r == vds_len / 2048,
{
    vds_len / 2048
}

/// What the volume descriptor sequence told so far: the first partition's
/// start and the file set descriptor's block.
pub struct VdsScan {
    pub partition_start: Option<u32>,
    pub fsd_lbn: Option<u32>,
}

/// One sector of the descriptor sequence: a partition descriptor gives the
/// partition start (the first one is kept), a logical volume descriptor the
/// file set descriptor's block (the last one is kept); every other sector
/// leaves the scan as it was.
pub open spec fn scan_step(s: VdsScan, sector: Seq<u8>) -> VdsScan {
    let tag = u16_le_at(sector, 0);
    if tag == TAG_PARTITION_DESC {
        VdsScan {
            partition_start: if s.partition_start is Some {
                s.partition_start
            } else {
                Some(u32_le_at(sector, 188))
            },
            fsd_lbn: s.fsd_lbn,
        }
    } else if tag == TAG_LOGICAL_VOLUME_DESC {
        VdsScan { partition_start: s.partition_start, fsd_lbn: Some(u32_le_at(sector, 252)) }
    } else {
        s
    }
}

impl VdsScan {
    /// Nothing found yet.
    pub fn new() -> (r: Self)
        ensures
            r.partition_start is None,
            r.fsd_lbn is None,
    {
        VdsScan { partition_start: None, fsd_lbn: None }
    }

    /// Takes one sector of the sequence; false when it is the terminating
    /// descriptor, where the walk stops.
    pub fn scan_sector(&mut self, sector: &[u8]) -> (more: bool)
        requires
            sector@.len() == SECTOR_SIZE,
        ensures
            more <==> u16_le_at(sector@, 0) != TAG_TERMINATING_DESC,
            *final(self) == scan_step(*old(self), sector@),
    {
        let tag = read_u16_le(sector, 0);
        if tag == TAG_PARTITION_DESC {
            if self.partition_start.is_none() {
                self.partition_start = Some(read_u32_le(sector, 188));
            }
        } else if tag == TAG_LOGICAL_VOLUME_DESC {
            self.fsd_lbn = Some(read_u32_le(sector, 252));
        }
        tag != TAG_TERMINATING_DESC
    }

    /// The sector of the file set descriptor: the partition start plus the
    /// descriptor's block; each missing descriptor is an error.
    pub fn fsd_sector(&self) -> (r: Result<u32, UdfError>)
        requires
            self.partition_start matches Some(p) && self.fsd_lbn matches Some(f) ==> p + f
                <= u32::MAX,
        ensures
            self.partition_start is None ==> (r matches Err(UdfError::MissingDescriptor(d))
                && d@ == "Partition Descriptor"@),
            self.partition_start is Some && self.fsd_lbn is None ==> (r matches Err(
                UdfError::MissingDescriptor(d),
            ) && d@ == "Logical Volume Descriptor"@),
            self.partition_start matches Some(p) && self.fsd_lbn matches Some(f) ==> (r matches Ok(
                s,
            ) && s == p + f),
    {
        let p = match self.partition_start {
            Some(p) => p,
            None => return Err(UdfError::MissingDescriptor("Partition Descriptor")),
        };
        let f = match self.fsd_lbn {
            Some(f) => f,
            None => return Err(UdfError::MissingDescriptor("Logical Volume Descriptor")),
        };
        Ok(p + f)
    }
}

/// The parsed volume: where partition 0 starts and where the root
/// directory's file entry lies (partition-relative).
pub struct UdfVolume {
    pub partition_start: u32,
    pub root_icb_loc: u32,
}

/// The text of an unexpected-tag error.
pub open spec fn tag_error_text(what: Seq<char>, sector: nat, tag: nat) -> Seq<char> {
    what + " at sector "@ + decimal(sector) + ", got tag "@ + decimal(tag)
}

impl UdfVolume {
    /// Reads the File Set Descriptor (tag 256) of a volume whose partition
    /// starts at `partition_start`: the root directory's file entry is the
    /// block at offset 404.
    pub fn from_fsd(partition_start: u32, fsd_sector: u32, sector: &[u8]) -> (r: Result<
        Self,
        UdfError,
    >)
        requires
            sector@.len() == SECTOR_SIZE,
        ensures
            r is Err <==> u16_le_at(sector@, 0) != TAG_FILE_SET_DESC,
            r matches Err(e) ==> (e matches UdfError::Parse(m) && m@ == tag_error_text(
                "Expected FSD (tag 256)"@,
                fsd_sector as nat,
                u16_le_at(sector@, 0) as nat,
            )),
            r matches Ok(v) ==> v.partition_start == partition_start && v.root_icb_loc
                == u32_le_at(sector@, 404),
    {
        let tag = read_u16_le(sector, 0);
        if tag != TAG_FILE_SET_DESC {
            return Err(UdfError::Parse(tag_error("Expected FSD (tag 256)", fsd_sector as u64, tag)));
        }
        Ok(UdfVolume { partition_start, root_icb_loc: read_u32_le(sector, 404) })
    }

    /// The absolute sector of the file entry at partition block `icb_lbn`.
    pub fn file_entry_sector(&self, icb_lbn: u32) -> (r: u64)
        ensures
            r == self.partition_start + icb_lbn,
    {
        self.partition_start as u64 + icb_lbn as u64
    }
}

/// Builds the text of an unexpected-tag error.
fn tag_error(what: &str, sector: u64, tag: u16) -> (r: String)
    ensures
        r@ == tag_error_text(what@, sector as nat, tag as nat),
{
    let mut s = string_of(what);
    push_text(&mut s, " at sector ");
    push_decimal(&mut s, sector);
    push_text(&mut s, ", got tag ");
    push_decimal(&mut s, tag as u64);
    s
}

/// Where the allocation descriptors of a file entry start: after the
/// extended attributes, which follow the fixed part (176 bytes for a File
/// Entry, 216 for an Extended File Entry).
pub open spec fn ad_offset(sector: Seq<u8>) -> int {
    let base = if u16_le_at(sector, 0) == TAG_FILE_ENTRY {
        176int
    } else {
        216int
    };
    base + u32_le_at(sector, 168)
}

/// A File Entry (261) or Extended File Entry (266) tag.
pub open spec fn is_file_entry_tag(tag: u16) -> bool {
    tag == TAG_FILE_ENTRY || tag == TAG_EXT_FILE_ENTRY
}

/// The allocation type of a file entry: the low 3 bits of the ICB tag flags.
pub open spec fn alloc_type(sector: Seq<u8>) -> u16 {
    u16_le_at(sector, 34) & 7u16
}

/// The file entry's data: with short (0) or long (1) allocation descriptors,
/// the first extent's block inside the partition; embedded data (3) lies in
/// the entry itself after its extended attributes. The length is the
/// entry's information length.
pub open spec fn file_entry_data(partition_start: u32, sector_no: u64, sector: Seq<u8>) -> (u64, u64) {
    let t = alloc_type(sector);
    let off = ad_offset(sector);
    let offset = if t == 3 {
        sector_no * SECTOR_SIZE + off
    } else {
        (partition_start + u32_le_at(sector, off + 4)) * SECTOR_SIZE
    };
    (offset as u64, u64_le_at(sector, 56))
}

/// Whether a file entry is refused, and the message it is refused with.
pub open spec fn file_entry_error(sector_no: u64, sector: Seq<u8>) -> Option<Seq<char>> {
    let tag = u16_le_at(sector, 0);
    let t = alloc_type(sector);
    let off = ad_offset(sector);
    if tag != TAG_FILE_ENTRY && tag != TAG_EXT_FILE_ENTRY {
        Some(tag_error_text("Expected File Entry (261/266)"@, sector_no as nat, tag as nat))
    } else if t == 0 && off + 8 > SECTOR_SIZE {
        Some("Short AD out of bounds"@)
    } else if t == 1 && off + 16 > SECTOR_SIZE {
        Some("Long AD out of bounds"@)
    } else if t != 0 && t != 1 && t != 3 {
        Some(
            "Unsupported allocation type "@ + decimal(t as nat) + " at sector "@ + decimal(
                sector_no as nat,
            ),
        )
    } else {
        None
    }
}

/// Reads the File Entry (tag 261) or Extended File Entry (tag 266) held in
/// `sector`, the absolute sector `sector_no`, and returns the absolute byte
/// offset and the byte length of its data (see `file_entry_data`).
pub fn parse_file_entry(partition_start: u32, sector_no: u64, sector: &[u8]) -> (r: Result<
    (u64, u64),
    UdfError,
>)
    requires
        sector@.len() == SECTOR_SIZE,
        sector_no <= u32::MAX + u32::MAX,
        is_file_entry_tag(u16_le_at(sector@, 0)) ==> ad_offset(sector@) <= u32::MAX,
    ensures
        r is Err <==> file_entry_error(sector_no, sector@) is Some,
        r matches Err(e) ==> (e matches UdfError::Parse(m) && file_entry_error(sector_no, sector@)
            == Some(m@)),
        r matches Ok(v) ==> v == file_entry_data(partition_start, sector_no, sector@),
{
    let tag = read_u16_le(sector, 0);
    if tag != TAG_FILE_ENTRY && tag != TAG_EXT_FILE_ENTRY {
        return Err(UdfError::Parse(tag_error("Expected File Entry (261/266)", sector_no, tag)));
    }
    let info_length = read_u64_le(sector, 56);
    let l_ea = read_u32_le(sector, 168);
    let ad_base: u32 = if tag == TAG_FILE_ENTRY {
        176
    } else {
        216
    };
    let icb_flags = read_u16_le(sector, 34);
    let alloc = icb_flags & 0x07;
    let ad_off = (ad_base + l_ea) as u64;
    if alloc == 0 {
        if ad_off + 8 > SECTOR_SIZE {
            return Err(UdfError::Parse(string_of("Short AD out of bounds")));
        }
        let ext_pos = read_u32_le(sector, ad_off as usize + 4);
        Ok(((partition_start as u64 + ext_pos as u64) * SECTOR_SIZE, info_length))
    } else if alloc == 1 {
        if ad_off + 16 > SECTOR_SIZE {
            return Err(UdfError::Parse(string_of("Long AD out of bounds")));
        }
        let ext_pos = read_u32_le(sector, ad_off as usize + 4);
        Ok(((partition_start as u64 + ext_pos as u64) * SECTOR_SIZE, info_length))
    } else if alloc == 3 {
        Ok((sector_no * SECTOR_SIZE + ad_off, info_length))
    } else {
        let mut m = string_of("Unsupported allocation type ");
        push_decimal(&mut m, alloc as u64);
        push_text(&mut m, " at sector ");
        push_decimal(&mut m, sector_no);
        Err(UdfError::Parse(m))
    }
}


/// The text of bytes decoded as UTF-8, each invalid sequence replaced by
/// U+FFFD, as Unicode defines it.
pub uninterp spec fn utf8_lossy_text(b: Seq<u8>) -> Seq<char>;

/// The text of UTF-16 units, each unpaired surrogate replaced by U+FFFD, as
/// Unicode defines it.
pub uninterp spec fn utf16_lossy_text(u: Seq<u16>) -> Seq<char>;

/// `String::from_utf8_lossy`: the text of `b`, invalid sequences replaced.
/// ASCII bytes are valid UTF-8 and decode to themselves.
#[verifier::external_body]
fn utf8_lossy(b: &[u8]) -> (r: String)
    ensures
        r@ == utf8_lossy_text(b@),
        (forall|i: int| 0 <= i < b@.len() ==> #[trigger] b@[i] < 0x80) ==> r@ == b@.map_values(
            |x: u8| x as char,
        ),
{
    String::from_utf8_lossy(b).into_owned()
}

/// `String::from_utf16_lossy`: the text of `u`, unpaired surrogates
/// replaced. ASCII units decode to themselves.
#[verifier::external_body]
fn utf16_lossy(u: &[u16]) -> (r: String)
    ensures
        r@ == utf16_lossy_text(u@),
        (forall|i: int| 0 <= i < u@.len() ==> #[trigger] u@[i] < 0x80) ==> r@ == u@.map_values(
            |x: u16| x as char,
        ),
{
    String::from_utf16_lossy(u)
}

/// A text without its trailing NUL characters.
pub open spec fn trim_nul(s: Seq<char>) -> Seq<char>
    decreases s.len(),
{
    if s.len() > 0 && s.last() == '\0' {
        trim_nul(s.drop_last())
    } else {
        s
    }
}

/// Drops the trailing NUL characters of a text.
fn trim_trailing_nul(s: &str) -> (r: String)
    ensures
        r@ == trim_nul(s@),
{
    let cs = chars_of(s);
    let mut n = cs.len();
    assert(cs@.take(n as int) =~= cs@);
    while n > 0 && cs[n - 1] == '\0'
        invariant
            n <= cs@.len(),
            trim_nul(s@) == trim_nul(cs@.take(n as int)),
            cs@ == s@,
        decreases n,
    {
        assert(cs@.take(n as int).drop_last() =~= cs@.take(n - 1));
        n = n - 1;
    }
    let mut kept: Vec<char> = Vec::new();
    let mut i: usize = 0;
    while i < n
        invariant
            i <= n,
            n <= cs@.len(),
            kept@ == cs@.take(i as int),
        decreases n - i,
    {
        kept.push(cs[i]);
        i = i + 1;
        assert(kept@ =~= cs@.take(i as int));
    }
    string_from_chars(kept.as_slice())
}

/// Big-endian 16-bit units of a byte string; an odd last byte is dropped.
pub open spec fn be_units(b: Seq<u8>) -> Seq<u16> {
    Seq::new(b.len() / 2, |i: int| (((b[2 * i] as u16) << 8u16) | (b[2 * i + 1] as u16)) as u16)
}

/// Latin-1 text: each byte is the character with that code.
pub open spec fn latin1(b: Seq<u8>) -> Seq<char> {
    b.map_values(|x: u8| x as char)
}

/// A UDF CS0 d-string: byte 0 is the compression ID, 8 for one byte per
/// character (Latin-1), 16 for UTF-16 big-endian; any other value is read as
/// UTF-8 from the first byte. Trailing NULs are dropped.
pub open spec fn dstring_text(d: Seq<u8>) -> Seq<char> {
    if d.len() == 0 {
        Seq::empty()
    } else if d[0] == 8 {
        trim_nul(latin1(d.subrange(1, d.len() as int)))
    } else if d[0] == 16 {
        trim_nul(utf16_lossy_text(be_units(d.subrange(1, d.len() as int))))
    } else {
        trim_nul(utf8_lossy_text(d))
    }
}

/// Decode a UDF CS0 d-string (see `dstring_text`).
pub fn decode_dstring(data: &[u8], from: usize, to: usize) -> (r: String)
    requires
        from <= to <= data@.len(),
    ensures
        r@ == dstring_text(data@.subrange(from as int, to as int)),
{
    let ghost d = data@.subrange(from as int, to as int);
    if from == to {
        return String::new();
    }
    let kind = data[from];
    if kind == 8 {
        let mut cs: Vec<char> = Vec::new();
        let mut i = from + 1;
        while i < to
            invariant
                from + 1 <= i <= to,
                to <= data@.len(),
                cs@ == latin1(data@.subrange(from + 1, i as int)),
            decreases to - i,
        {
            cs.push(data[i] as char);
            i = i + 1;
            assert(cs@ =~= latin1(data@.subrange(from + 1, i as int)));
        }
        assert(data@.subrange(from + 1, to as int) =~= d.subrange(1, d.len() as int));
        let text = string_from_chars(cs.as_slice());
        trim_trailing_nul(text.as_str())
    } else if kind == 16 {
        let mut units: Vec<u16> = Vec::new();
        let mut i = from + 1;
        let ghost b = d.subrange(1, d.len() as int);
        while to - i >= 2
            invariant
                from + 1 <= i <= to,
                to <= data@.len(),
                b == data@.subrange(from + 1, to as int),
                i - (from + 1) == 2 * units@.len(),
                units@ == be_units(b).take(units@.len() as int),
                units@.len() <= be_units(b).len(),
            decreases to - i,
        {
            let u: u16 = ((data[i] as u16) << 8u16) | (data[i + 1] as u16);
            assert(b[2 * units@.len() as int] == data@[i as int]);
            assert(b[2 * units@.len() as int + 1] == data@[i + 1]);
            units.push(u);
            i = i + 2;
            assert(units@ =~= be_units(b).take(units@.len() as int));
        }
        assert(units@ =~= be_units(b));
        let text = utf16_lossy(units.as_slice());
        trim_trailing_nul(text.as_str())
    } else {
        let bytes = copy_bytes(data, from, to);
        let text = utf8_lossy(bytes.as_slice());
        trim_trailing_nul(text.as_str())
    }
}

/// A copy of `data[from..to]`.
fn copy_bytes(data: &[u8], from: usize, to: usize) -> (r: Vec<u8>)
    requires
        from <= to <= data@.len(),
    ensures
        r@ == data@.subrange(from as int, to as int),
{
    let mut v: Vec<u8> = Vec::new();
    let mut i = from;
    while i < to
        invariant
            from <= i <= to,
            to <= data@.len(),
            v@ == data@.subrange(from as int, i as int),
        decreases to - i,
    {
        v.push(data[i]);
        i = i + 1;
        assert(v@ =~= data@.subrange(from as int, i as int));
    }
    v
}

/// A file identifier found in a directory: its name, whether it is a
/// directory, and the block of its file entry (partition-relative).
pub struct DirRecord {
    pub name: String,
    pub is_dir: bool,
    pub icb_location: u32,
}

/// A record as its name, kind and file entry block.
pub open spec fn record_view(r: DirRecord) -> (Seq<char>, bool, u32) {
    (r.name@, r.is_dir, r.icb_location)
}

/// Bytes a File Identifier Descriptor takes: 38 fixed bytes, the
/// implementation use and the identifier, padded to 4 bytes.
pub open spec fn fid_len(data: Seq<u8>, pos: int) -> int {
    ((38 + u16_le_at(data, pos + 36) + data[pos + 19] + 3) / 4) * 4
}

/// The record a File Identifier Descriptor at `pos` contributes: none for
/// the parent entry, a deleted entry, a name past the end of the data, or an
/// empty name.
pub open spec fn fid_record(data: Seq<u8>, pos: int) -> Seq<(Seq<char>, bool, u32)> {
    let ch = data[pos + 18];
    let l_fi = data[pos + 19] as int;
    let name_off = pos + 38 + u16_le_at(data, pos + 36);
    if ch & FID_CHAR_PARENT == 0 && ch & FID_CHAR_DELETED == 0 && name_off + l_fi <= data.len() {
        let name = dstring_text(data.subrange(name_off, name_off + l_fi));
        if name.len() > 0 {
            seq![(name, ch & FID_CHAR_DIRECTORY != 0, u32_le_at(data, pos + 24))]
        } else {
            Seq::empty()
        }
    } else {
        Seq::empty()
    }
}

/// The records of the File Identifier Descriptors from `pos` on: they follow
/// one another until the data ends or a descriptor is not tagged 257.
pub open spec fn fid_records(data: Seq<u8>, pos: int) -> Seq<(Seq<char>, bool, u32)>
    decreases data.len() - pos,
{
    if pos < 0 || pos + 38 > data.len() || u16_le_at(data, pos) != TAG_FILE_IDENT_DESC {
        Seq::empty()
    } else if pos + fid_len(data, pos) + 38 <= data.len() {
        fid_record(data, pos) + fid_records(data, pos + fid_len(data, pos))
    } else {
        fid_record(data, pos)
    }
}

/// Parses the File Identifier Descriptors of a directory's data (see
/// `fid_records`).
pub fn parse_directory(data: &[u8]) -> (r: Vec<DirRecord>)
    ensures
        r@.map_values(|x: DirRecord| record_view(x)) == fid_records(data@, 0),
{
    let len = data.len();
    let mut records: Vec<DirRecord> = Vec::new();
    let mut pos: usize = 0;
    let mut done = false;
    assert(records@.map_values(|x: DirRecord| record_view(x)) =~= Seq::<(Seq<char>, bool, u32)>::empty());
    while !done && len - pos >= 38
        invariant
            len == data@.len(),
            pos <= len,
            fid_records(data@, 0) == records@.map_values(|x: DirRecord| record_view(x)) + (if done {
                Seq::<(Seq<char>, bool, u32)>::empty()
            } else {
                fid_records(data@, pos as int)
            }),
        decreases len - pos + (if done {
            0int
        } else {
            1int
        }),
    {
        let ghost before = records@.map_values(|x: DirRecord| record_view(x));
        if read_u16_le(data, pos) != TAG_FILE_IDENT_DESC {
            done = true;
            assert(before + Seq::<(Seq<char>, bool, u32)>::empty() =~= before);
        } else {
            let ch = data[pos + 18];
            let l_fi = data[pos + 19] as usize;
            let icb_loc = read_u32_le(data, pos + 24);
            let l_iu = read_u16_le(data, pos + 36) as usize;
            let room = len - pos - 38;
            if ch & FID_CHAR_PARENT == 0 && ch & FID_CHAR_DELETED == 0 && l_iu <= room && l_fi
                <= room - l_iu {
                let name_offset = pos + 38 + l_iu;
                let name = decode_dstring(data, name_offset, name_offset + l_fi);
                if name.as_str().unicode_len() > 0 {
                    records.push(
                        DirRecord { name, is_dir: ch & FID_CHAR_DIRECTORY != 0, icb_location: icb_loc },
                    );
                }
            }
            let ghost here = fid_record(data@, pos as int);
            assert(records@.map_values(|x: DirRecord| record_view(x)) =~= before + here);
            let padded = ((38 + l_iu + l_fi + 3) / 4) * 4;
            assert(padded == fid_len(data@, pos as int));
            if len - pos < padded + 38 {
                done = true;
                assert(before + here + Seq::<(Seq<char>, bool, u32)>::empty() =~= before + here);
            } else {
                pos = pos + padded;
                assert(before + (here + fid_records(data@, pos as int)) =~= before + here
                    + fid_records(data@, pos as int));
            }
        }
    }
    proof {
        if !done {
            assert(fid_records(data@, pos as int) =~= Seq::<(Seq<char>, bool, u32)>::empty());
        }
        assert(records@.map_values(|x: DirRecord| record_view(x)) + Seq::<(Seq<char>, bool, u32)>::empty()
            =~= records@.map_values(|x: DirRecord| record_view(x)));
    }
    records
}

/// A file or directory entry discovered inside the ISO.
pub struct UdfEntry {
    pub name: String,
    pub is_dir: bool,
    /// Byte-size of the file (0 for directories).
    pub size: u64,
    /// Block of the File Entry ICB (partition-relative).
    icb_location: u32,
}

/// An entry as its name, kind, size and file entry block.
pub struct UdfEntryView {
    pub name: Seq<char>,
    pub is_dir: bool,
    pub size: u64,
    pub icb: u32,
}

impl View for UdfEntry {
    type V = UdfEntryView;

    closed spec fn view(&self) -> UdfEntryView {
        UdfEntryView {
            name: self.name@,
            is_dir: self.is_dir,
            size: self.size,
            icb: self.icb_location,
        }
    }
}

impl UdfEntry {
    /// The block of the entry's file entry (partition-relative).
    pub open spec fn icb(&self) -> u32 {
        self@.icb
    }

    /// The block of the entry's file entry (partition-relative).
    pub fn icb_location(&self) -> (r: u32)
        ensures
            r == self@.icb,
    {
        self.icb_location
    }

    /// The entry's name.
    pub fn name(&self) -> (r: &str)
        ensures
            r@ == self@.name,
    {
        self.name.as_str()
    }

    /// Whether the entry is a directory.
    pub fn is_dir(&self) -> (r: bool)
        ensures
            r == self@.is_dir,
    {
        self.is_dir
    }

    /// Byte-size of the file (0 for directories).
    pub fn size(&self) -> (r: u64)
        ensures
            r == self@.size,
    {
        self.size
    }

    /// The entry of a directory record: a directory has size 0; a file the
    /// length its file entry gives, or 0 when the file entry could not be
    /// read (`file_data` is what reading it gave).
    pub fn from_record(record: DirRecord, file_data: Option<Result<(u64, u64), UdfError>>) -> (r:
        UdfEntry)
        ensures
            r@.name == record.name@,
            r@.is_dir == record.is_dir,
            r@.icb == record.icb_location,
            r@.size == (if record.is_dir {
                0
            } else {
                match file_data {
                    Some(Ok(v)) => v.1,
                    _ => 0,
                }
            }),
    {
        let size = if record.is_dir {
            0
        } else {
            match file_data {
                Some(Ok((_, len))) => len,
                _ => 0,
            }
        };
        UdfEntry { name: record.name, is_dir: record.is_dir, size, icb_location: record.icb_location }
    }
}

impl UdfVolume {
    /// Where to read the file entry of a file to open it: refused for a
    /// directory.
    pub fn open_location(&self, entry: &UdfEntry) -> (r: Result<u64, UdfError>)
        ensures
            entry@.is_dir ==> (r matches Err(UdfError::Parse(m)) && m@
                == "Cannot open a directory as a file"@),
            !entry@.is_dir ==> r == Ok::<u64, UdfError>((self.partition_start + entry@.icb) as u64),
    {
        if entry.is_dir {
            return Err(UdfError::Parse(string_of("Cannot open a directory as a file")));
        }
        Ok(self.file_entry_sector(entry.icb_location))
    }
}

/// The path of `name` inside the directory at `prefix`: the name itself at
/// the top, else the prefix, '/', and the name.
pub open spec fn joined(prefix: Seq<char>, name: Seq<char>) -> Seq<char> {
    if prefix.len() == 0 {
        name
    } else {
        prefix + seq!['/'] + name
    }
}

/// The path of `name` inside the directory at `prefix` (see `joined`).
pub fn join_path(prefix: &str, name: &str) -> (r: String)
    ensures
        r@ == joined(prefix@, name@),
{
    if prefix.unicode_len() == 0 {
        return string_of(name);
    }
    let mut s = string_of(prefix);
    push_char(&mut s, '/');
    push_text(&mut s, name);
    s
}

// ── Walking the tree ───────────────────────────────────────────────────────

/// A directory being walked: its path and the entries still to visit,
/// kept last-first so that the next one is taken from the end.
pub struct WalkFrame {
    prefix: String,
    rest: Vec<UdfEntry>,
}

/// A directory being walked, as its path and its entries still to visit,
/// in order.
pub closed spec fn frame_view(f: WalkFrame) -> (Seq<char>, Seq<UdfEntryView>) {
    (f.prefix@, f.rest@.map_values(|e: UdfEntry| e@).reverse())
}

/// A walk of the whole tree, depth first: the directories being walked,
/// the innermost last.
pub struct TreeWalk {
    frames: Vec<WalkFrame>,
}

/// What a walk does next.
pub enum WalkStep {
    /// Visit the entry at `path`; for a directory, `descend` holds the block
    /// of its file entry, whose entries the caller reads and hands to
    /// `TreeWalk::enter` before the next step.
    Visit { path: String, entry: UdfEntry, descend: Option<u32> },
    /// Every entry was visited.
    Done,
}

/// The directories being walked, without those left with nothing to visit
/// on top.
pub open spec fn drop_done(f: Seq<(Seq<char>, Seq<UdfEntryView>)>) -> Seq<(Seq<char>, Seq<UdfEntryView>)>
    decreases f.len(),
{
    if f.len() > 0 && f.last().1.len() == 0 {
        drop_done(f.drop_last())
    } else {
        f
    }
}

impl TreeWalk {
    /// The directories being walked, the innermost last.
    pub closed spec fn frames(&self) -> Seq<(Seq<char>, Seq<UdfEntryView>)> {
        self.frames@.map_values(|f: WalkFrame| frame_view(f))
    }

    /// A walk of the tree whose root directory holds `root`.
    pub fn new(root: Vec<UdfEntry>) -> (r: Self)
        ensures
            r.frames() == seq![(Seq::<char>::empty(), root@.map_values(|e: UdfEntry| e@))],
    {
        let mut w = TreeWalk { frames: Vec::new() };
        proof {
            reveal_strlit("");
        }
        w.enter(String::new(), root);
        assert(w.frames() =~= seq![(Seq::<char>::empty(), root@.map_values(|e: UdfEntry| e@))]);
        w
    }

    /// Starts walking the directory at `path`, which holds `entries`: its
    /// entries are visited next, before what is left of the directories
    /// around it, which makes the walk visit each directory's entries
    /// right after the directory.
    pub fn enter(&mut self, path: String, entries: Vec<UdfEntry>)
        ensures
            final(self).frames() == old(self).frames().push(
                (path@, entries@.map_values(|e: UdfEntry| e@)),
            ),
    {
        let ghost ev = entries@.map_values(|e: UdfEntry| e@);
        let mut src = entries;
        let mut rest: Vec<UdfEntry> = Vec::new();
        while src.len() > 0
            invariant
                src@.map_values(|e: UdfEntry| e@) + rest@.map_values(|e: UdfEntry| e@).reverse()
                    == ev,
            decreases src@.len(),
        {
            let ghost before_src = src@;
            let ghost before_rest = rest@;
            let e = src.pop().unwrap();
            proof {
                assert(before_src == src@.push(e));
            }
            rest.push(e);
            let ghost sv = src@.map_values(|x: UdfEntry| x@);
            let ghost rv = before_rest.map_values(|x: UdfEntry| x@);
            assert(rest@.map_values(|x: UdfEntry| x@) =~= rv.push(e@));
            assert(rv.push(e@).reverse() =~= seq![e@] + rv.reverse());
            assert(before_src.map_values(|x: UdfEntry| x@) =~= sv.push(e@));
            assert(sv.push(e@) + rv.reverse() =~= sv + (seq![e@] + rv.reverse()));
        }
        assert(src@.map_values(|e: UdfEntry| e@) =~= Seq::<UdfEntryView>::empty());
        assert(Seq::<UdfEntryView>::empty() + rest@.map_values(|e: UdfEntry| e@).reverse() =~= rest@.map_values(|e: UdfEntry| e@).reverse());
        assert(rest@.map_values(|e: UdfEntry| e@).reverse() =~= ev);
        let ghost old_frames = self.frames();
        self.frames.push(WalkFrame { prefix: path, rest });
        assert(self.frames() =~= old_frames.push((path@, ev)));
    }

    /// The next step of the walk: directories with nothing left to visit are
    /// left; then the next entry of the innermost directory is visited, at
    /// its path inside that directory, and a directory is descended into.
    pub fn step(&mut self) -> (r: WalkStep)
        ensures
            drop_done(old(self).frames()).len() == 0 ==> (r is Done && final(self).frames()
                == drop_done(old(self).frames())),
            drop_done(old(self).frames()).len() > 0 ==> ({
                let g = drop_done(old(self).frames());
                let top = g.last();
                &&& r matches WalkStep::Visit { path, entry, descend } && {
                    &&& entry@ == top.1[0]
                    &&& path@ == joined(top.0, entry@.name)
                    &&& descend == (if entry@.is_dir {
                        Some(entry@.icb)
                    } else {
                        None
                    })
                }
                &&& final(self).frames() == g.drop_last().push((top.0, top.1.drop_first()))
            }),
    {
        loop
            invariant
                drop_done(self.frames()) == drop_done(old(self).frames()),
            ensures
                drop_done(self.frames()) == drop_done(old(self).frames()),
                self.frames().len() == 0 || self.frames().last().1.len() > 0,
            decreases self.frames@.len(),
        {
            let n = self.frames.len();
            if n == 0 {
                break;
            }
            if self.frames[n - 1].rest.len() > 0 {
                assert(self.frames()[n - 1] == frame_view(self.frames@[n - 1]));
                break;
            }
            let ghost before = self.frames();
            assert(before.last() == frame_view(self.frames@[n - 1]));
            self.frames.pop();
            assert(self.frames() =~= before.drop_last());
        }
        let n = self.frames.len();
        if n == 0 {
            return WalkStep::Done;
        }
        let ghost g = self.frames();
        let mut top = self.frames.pop().unwrap();
        assert(g.last() == frame_view(top));
        assert(self.frames() =~= g.drop_last());
        let ghost rest_before = top.rest@;
        let entry = top.rest.pop().unwrap();
        proof {
            assert(rest_before == top.rest@.push(entry));
            assert(rest_before.map_values(|e: UdfEntry| e@) =~= top.rest@.map_values(|e: UdfEntry| e@).push(entry@));
            assert(rest_before.map_values(|e: UdfEntry| e@).reverse()[0] == entry@);
            assert(top.rest@.map_values(|e: UdfEntry| e@).reverse() =~= rest_before.map_values(
                |e: UdfEntry| e@,
            ).reverse().drop_first());
        }
        let path = join_path(top.prefix.as_str(), entry.name());
        let descend = if entry.is_dir() {
            Some(entry.icb_location())
        } else {
            None
        };
        let ghost frames_mid = self.frames();
        self.frames.push(top);
        assert(self.frames() =~= frames_mid.push(frame_view(top)));
        WalkStep::Visit { path, entry, descend }
    }
}


/// The entries a walk visited at the top level, in order: those visited at
/// their own name, which is the path of an entry of the root directory.
pub open spec fn top_level(visits: Seq<(Seq<char>, UdfEntryView)>) -> Seq<UdfEntryView>
    decreases visits.len(),
{
    if visits.len() == 0 {
        Seq::empty()
    } else {
        let v = visits.last();
        top_level(visits.drop_last()) + if v.0 == v.1.name {
            seq![v.1]
        } else {
            Seq::empty()
        }
    }
}

/// One step of a walk as its caller drives it: `TreeWalk::step` visits
/// `visit` and leaves the walk at its next state, and for a directory the
/// caller may then `enter` it at the visited path.
pub open spec fn walk_moves(
    before: Seq<(Seq<char>, Seq<UdfEntryView>)>,
    visit: (Seq<char>, UdfEntryView),
    after: Seq<(Seq<char>, Seq<UdfEntryView>)>,
) -> bool {
    let g = drop_done(before);
    &&& g.len() > 0
    &&& {
        let top = g.last();
        let e = top.1[0];
        let mid = g.drop_last().push((top.0, top.1.drop_first()));
        &&& visit == (joined(top.0, e.name), e)
        &&& (after == mid || (e.is_dir && after.len() == mid.len() + 1 && after.drop_last() == mid
            && after.last().0 == visit.0))
    }
}

/// What `drop_done` leaves is a prefix of the directories, and each one it
/// leaves out has nothing left to visit.
proof fn lemma_drop_done(f: Seq<(Seq<char>, Seq<UdfEntryView>)>)
    ensures
        drop_done(f).len() <= f.len(),
        drop_done(f) == f.take(drop_done(f).len() as int),
        forall|j: int| drop_done(f).len() <= j < f.len() ==> #[trigger] f[j].1.len() == 0,
        drop_done(f).len() > 0 ==> f[drop_done(f).len() - 1].1.len() > 0,
    decreases f.len(),
{
    if f.len() > 0 && f.last().1.len() == 0 {
        lemma_drop_done(f.drop_last());
        assert forall|j: int| drop_done(f).len() <= j < f.len() implies #[trigger] f[j].1.len() == 0 by {
            if j < f.len() - 1 {
                assert(f[j] == f.drop_last()[j]);
            }
        }
        assert(f.drop_last().take(drop_done(f).len() as int) =~= f.take(drop_done(f).len() as int));
    } else {
        assert(f.take(f.len() as int) =~= f);
    }
}

/// The walk's state after its first `i` visits, seen from the root: the
/// root directory's frame holds the root entries not yet visited, every
/// other directory sits at a path that is not empty, and the top-level
/// visits so far are the first root entries.
spec fn walk_from_root(
    root: Seq<UdfEntryView>,
    frames: Seq<(Seq<char>, Seq<UdfEntryView>)>,
    visits: Seq<(Seq<char>, UdfEntryView)>,
) -> bool {
    let c = top_level(visits).len();
    &&& c <= root.len()
    &&& top_level(visits) == root.take(c as int)
    &&& frames.len() > 0 ==> frames[0] == (Seq::<char>::empty(), root.skip(c as int))
    &&& frames.len() == 0 ==> c == root.len()
    &&& forall|j: int| 1 <= j < frames.len() ==> (#[trigger] frames[j]).0.len() > 0
}

/// One more step keeps `walk_from_root`.
proof fn lemma_walk_from_root_step(
    root: Seq<UdfEntryView>,
    before: Seq<(Seq<char>, Seq<UdfEntryView>)>,
    visits: Seq<(Seq<char>, UdfEntryView)>,
    visit: (Seq<char>, UdfEntryView),
    after: Seq<(Seq<char>, Seq<UdfEntryView>)>,
)
    requires
        walk_from_root(root, before, visits),
        walk_moves(before, visit, after),
        forall|k: int| 0 <= k < root.len() && (#[trigger] root[k]).is_dir ==> root[k].name.len() > 0,
    ensures
        walk_from_root(root, after, visits.push(visit)),
{
    lemma_drop_done(before);
    let g = drop_done(before);
    let m = g.len() as int;
    let top = g.last();
    let e = top.1[0];
    let mid = g.drop_last().push((top.0, top.1.drop_first()));
    let c = top_level(visits).len() as int;
    let vs = visits.push(visit);
    assert(vs.drop_last() =~= visits);
    assert(top == before[m - 1]);
    if m == 1 {
        assert(top == (Seq::<char>::empty(), root.skip(c)));
        assert(c < root.len());
        assert(e == root[c]);
        assert(visit.0 == e.name);
        assert(top_level(vs) == top_level(visits) + seq![e]);
        assert(root.take(c) + seq![root[c]] =~= root.take(c + 1));
        assert(root.skip(c).drop_first() =~= root.skip(c + 1));
        assert(mid =~= seq![(Seq::<char>::empty(), root.skip(c + 1))]);
        assert forall|j: int| 1 <= j < after.len() implies (#[trigger] after[j]).0.len() > 0 by {
            assert(j == 1);
            assert(after[1] == after.last());
        }
    } else {
        assert(top.0.len() > 0);
        assert(visit.0 == top.0 + seq!['/'] + e.name);
        assert(visit.0.len() > e.name.len());
        assert(top_level(vs) =~= top_level(visits));
        assert(g[0] == before[0]);
        assert(mid[0] == before[0]);
        assert forall|j: int| 1 <= j < after.len() implies (#[trigger] after[j]).0.len() > 0 by {
            if j < m - 1 {
                assert(after[j] == mid[j]);
                assert(mid[j] == g[j]);
                assert(g[j] == before[j]);
            } else if j == m - 1 {
                assert(after[j] == mid[j]);
            } else {
                assert(after[j] == after.last());
            }
        }
    }
}

/// The first `i` steps of a walk keep `walk_from_root`.
proof fn lemma_walk_prefix(
    root: Seq<UdfEntryView>,
    states: Seq<Seq<(Seq<char>, Seq<UdfEntryView>)>>,
    visits: Seq<(Seq<char>, UdfEntryView)>,
    i: int,
)
    requires
        states.len() == visits.len() + 1,
        states[0] == seq![(Seq::<char>::empty(), root)],
        forall|k: int| 0 <= k < visits.len() ==> walk_moves(states[k], #[trigger] visits[k], states[k + 1]),
        forall|k: int| 0 <= k < root.len() && (#[trigger] root[k]).is_dir ==> root[k].name.len() > 0,
        0 <= i <= visits.len(),
    ensures
        walk_from_root(root, states[i], visits.take(i)),
    decreases i,
{
    if i == 0 {
        assert(visits.take(0) =~= Seq::<(Seq<char>, UdfEntryView)>::empty());
        assert(root.take(0) =~= Seq::<UdfEntryView>::empty());
        assert(root.skip(0) =~= root);
    } else {
        lemma_walk_prefix(root, states, visits, i - 1);
        assert(visits.take(i) =~= visits.take(i - 1).push(visits[i - 1]));
        lemma_walk_from_root_step(root, states[i - 1], visits.take(i - 1), visits[i - 1], states[i]);
    }
}

/// A walk's top level is the root listing: a walk started with
/// `TreeWalk::new(root)` and driven step by step until `step` reports
/// `Done` (a directory entered, if at all, at its visited path) visits at
/// their own name exactly the root entries, each once and in order, when
/// no directory in the root has an empty name.
pub proof fn lemma_walk_top_level_is_root(
    root: Seq<UdfEntryView>,
    states: Seq<Seq<(Seq<char>, Seq<UdfEntryView>)>>,
    visits: Seq<(Seq<char>, UdfEntryView)>,
)
    requires
        states.len() == visits.len() + 1,
        states[0] == seq![(Seq::<char>::empty(), root)],
        forall|i: int| 0 <= i < visits.len() ==> walk_moves(states[i], #[trigger] visits[i], states[i + 1]),
        drop_done(states[visits.len() as int]).len() == 0,
        forall|k: int| 0 <= k < root.len() && (#[trigger] root[k]).is_dir ==> root[k].name.len() > 0,
    ensures
        top_level(visits) == root,
{
    let n = visits.len() as int;
    lemma_walk_prefix(root, states, visits, n);
    assert(visits.take(n) =~= visits);
    let f = states[n];
    let c = top_level(visits).len() as int;
    if f.len() > 0 {
        lemma_drop_done(f);
        assert(f[0].1.len() == 0);
        assert(c == root.len());
    }
    assert(root.take(root.len() as int) =~= root);
}

} // verus!
