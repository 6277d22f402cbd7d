//! The flashing pipeline's decisions: its phases, how a raw image is read
//! and verified in chunks, and how an installer image is recognised.

use vstd::prelude::*;
use std::sync::Arc;
use std::sync::atomic::AtomicBool;
use crate::config::READ_CHUNK_SIZE;
use crate::error::{Error, IoError, IoErrorKind};
use crate::text::{string_of, text_eq};

verus! {

/// Bytes of progress between two reports while reading.
pub const PROGRESS_STEP: u64 = 4194304;

/// Bytes read back per verification chunk.
pub const VERIFY_CHUNK_SIZE: usize = 1048576;

/// The phases of a flash.
#[derive(Debug, Clone, Copy, PartialEq, Eq, Structural)]
pub enum FlashPhase {
    Validating,
    Formatting,
    Flashing,
    Verifying,
    Finalizing,
}

/// The name of a phase.
pub open spec fn phase_name(p: FlashPhase) -> Seq<char> {
    match p {
        FlashPhase::Validating => "Validating"@,
        FlashPhase::Formatting => "Formatting"@,
        FlashPhase::Flashing => "Flashing"@,
        FlashPhase::Verifying => "Verifying"@,
        FlashPhase::Finalizing => "Finalizing"@,
    }
}

impl FlashPhase {
    /// The name of the phase.
    pub fn as_str(&self) -> (r: &'static str)
        ensures
            r@ == phase_name(*self),
    {
        match self {
            FlashPhase::Validating => "Validating",
            FlashPhase::Formatting => "Formatting",
            FlashPhase::Flashing => "Flashing",
            FlashPhase::Verifying => "Verifying",
            FlashPhase::Finalizing => "Finalizing",
        }
    }
}

/// Settings of a flash.
pub struct FlashConfig {
    pub verify: bool,
    pub volume_label: Option<String>,
}

impl Default for FlashConfig {
    /// Verify, no volume label.
    fn default() -> (r: Self)
        ensures
            r.verify,
            r.volume_label is None,
    {
        FlashConfig { verify: true, volume_label: None }
    }
}

/// The flasher: it watches a cancellation flag.
pub struct Flasher {
    cancelled: Arc<AtomicBool>,
}

impl Flasher {
    /// A flasher that watches the given cancellation flag.
    pub fn new(cancelled: Arc<AtomicBool>) -> (r: Self)
        ensures
            r.cancel_flag() == cancelled,
    {
        Flasher { cancelled }
    }

    /// The cancellation flag watched.
    pub closed spec fn cancel_flag(&self) -> Arc<AtomicBool> {
        self.cancelled
    }
}

/// A Windows installer: its tree holds "sources/install.wim" or
/// "sources/boot.wim".
pub open spec fn windows_tree(paths: Seq<Seq<char>>) -> bool {
    exists|i: int|
        0 <= i < paths.len() && (#[trigger] paths[i] == "sources/install.wim"@ || paths[i]
            == "sources/boot.wim"@)
}

/// Whether the paths of an image's tree are those of a Windows installer
/// (see `windows_tree`).
pub fn is_windows_tree(paths: &Vec<String>) -> (r: bool)
    ensures
        r == windows_tree(paths@.map_values(|p: String| p@)),
{
    let ghost ps = paths@.map_values(|p: String| p@);
    let mut i: usize = 0;
    while i < paths.len()
        invariant
            i <= paths@.len(),
            ps == paths@.map_values(|p: String| p@),
            forall|k: int|
                0 <= k < i ==> !(#[trigger] ps[k] == "sources/install.wim"@ || ps[k]
                    == "sources/boot.wim"@),
        decreases paths@.len() - i,
    {
        let p = paths[i].as_str();
        assert(ps[i as int] == p@);
        if text_eq(p, "sources/install.wim") || text_eq(p, "sources/boot.wim") {
            return true;
        }
        i = i + 1;
    }
    false
}

/// How many bytes to read next into the read buffer: up to the end of the
/// buffer and no further than the image.
pub fn read_request(total_size: u64, total_written: u64, bytes_in_buf: usize) -> (r: usize)
    requires
        total_written + bytes_in_buf <= total_size,
        bytes_in_buf <= READ_CHUNK_SIZE,
    ensures
        r == (if READ_CHUNK_SIZE - bytes_in_buf < total_size - total_written - bytes_in_buf {
            READ_CHUNK_SIZE - bytes_in_buf
        } else {
            total_size - total_written - bytes_in_buf
        }),
{
    let remaining = total_size - total_written - bytes_in_buf as u64;
    let room = READ_CHUNK_SIZE - bytes_in_buf;
    if (room as u64) < remaining {
        room
    } else {
        remaining as usize
    }
}

/// Whether progress should be reported: the device moved at least
/// `PROGRESS_STEP` bytes since the last report.
pub fn progress_due(pos: u64, last_reported: u64) -> (r: bool)
    requires
        last_reported <= pos,
    ensures
        r == (pos - last_reported >= PROGRESS_STEP),
{
    pos - last_reported >= PROGRESS_STEP
}

/// How many bytes the next verification read takes.
pub fn verify_chunk_len(total_size: u64, verified: u64) -> (r: usize)
    requires
        verified <= total_size,
    ensures
        r == (if total_size - verified < VERIFY_CHUNK_SIZE {
            total_size - verified
        } else {
            VERIFY_CHUNK_SIZE as int
        }),
{
    let remaining = total_size - verified;
    if remaining < VERIFY_CHUNK_SIZE as u64 {
        remaining as usize
    } else {
        VERIFY_CHUNK_SIZE
    }
}

/// A verification read must bring back the whole chunk.
pub fn check_verify_read(expected: usize, actual: usize) -> (r: Result<(), Error>)
    ensures
        r is Ok <==> expected == actual,
        r matches Err(e) ==> (e matches Error::SizeMismatch { operation, expected: x, actual: y }
            && operation@ == "verify read"@ && x == expected && y == actual),
{
    if expected != actual {
        return Err(Error::SizeMismatch { operation: "verify read", expected, actual });
    }
    Ok(())
}

/// Whether verification progress should be reported: at every 4 MiB and at
/// the end.
pub fn verify_progress_due(verified: u64, total_size: u64) -> (r: bool)
    ensures
        r == (verified % PROGRESS_STEP == 0 || verified == total_size),
{
    verified % PROGRESS_STEP == 0 || verified == total_size
}

/// The verdict of verification: the device's digest must equal the
/// image's.
pub fn check_digests(expected: &[u8], actual: &[u8]) -> (r: Result<(), Error>)
    ensures
        r is Ok <==> expected@ == actual@,
        r matches Err(e) ==> (e matches Error::Io(x) && x.kind == IoErrorKind::InvalidData
            && x.message@ == "Verification Failed: BLAKE3 data mismatch"@),
{
    let mut same = expected.len() == actual.len();
    if same {
        let mut i: usize = 0;
        while i < expected.len()
            invariant
                i <= expected@.len(),
                expected@.len() == actual@.len(),
                same <==> forall|k: int| 0 <= k < i ==> expected@[k] == actual@[k],
            decreases expected@.len() - i,
        {
            if expected[i] != actual[i] {
                same = false;
            }
            i = i + 1;
        }
        if same {
            assert(expected@ =~= actual@);
        }
    }
    if !same {
        return Err(
            Error::Io(
                IoError::new(
                    IoErrorKind::InvalidData,
                    string_of("Verification Failed: BLAKE3 data mismatch"),
                ),
            ),
        );
    }
    Ok(())
}


// ── Image digests ──────────────────────────────────────────────────────────

/// BLAKE3's incremental hasher.
#[verifier::external_type_specification]
#[verifier::external_body]
pub struct ExBlake3Hasher(blake3::Hasher);

/// The bytes fed to a hasher so far.
pub uninterp spec fn hasher_input(h: blake3::Hasher) -> Seq<u8>;

/// The 32-byte BLAKE3 hash of `data` (`blake3::hash`).
pub uninterp spec fn blake3_hash(data: Seq<u8>) -> Seq<u8>;

/// `blake3::Hasher::new`: a hasher that has been fed nothing.
#[verifier::external_body]
fn new_hasher() -> (r: blake3::Hasher)
    ensures
        hasher_input(r) == Seq::<u8>::empty(),
{
    blake3::Hasher::new()
}

/// `blake3::Hasher::update`: feeds `data` after what the hasher was fed.
#[verifier::external_body]
fn feed_hasher(h: &mut blake3::Hasher, data: &[u8])
    ensures
        hasher_input(*final(h)) == hasher_input(*old(h)) + data@,
{
    h.update(data);
}

/// `blake3::Hasher::finalize`, as bytes: the hash of everything the hasher
/// was fed, which the crate documents to equal `blake3::hash` of the
/// concatenated input. (The hashers here never use the input-offset
/// setting under which `finalize` panics.)
#[verifier::external_body]
fn hasher_digest(h: &blake3::Hasher) -> (r: Vec<u8>)
    ensures
        r@ == blake3_hash(hasher_input(*h)),
{
    h.finalize().as_bytes().to_vec()
}

/// A running BLAKE3 digest of a byte stream (the image as it is read, or
/// the device as it is read back).
pub struct StreamDigest {
    hasher: blake3::Hasher,
}

impl StreamDigest {
    /// The bytes digested so far.
    pub closed spec fn input(&self) -> Seq<u8> {
        hasher_input(self.hasher)
    }

    /// A digest of the empty stream.
    pub fn new() -> (r: Self)
        ensures
            r.input() == Seq::<u8>::empty(),
    {
        StreamDigest { hasher: new_hasher() }
    }

    /// Appends `data` to the stream digested.
    pub fn update(&mut self, data: &[u8])
        ensures
            final(self).input() == old(self).input() + data@,
    {
        feed_hasher(&mut self.hasher, data);
    }

    /// The verdict of verification: the stream read back from the device
    /// must hash as the image did.
    pub fn verdict(&self, device: &StreamDigest) -> (r: Result<(), Error>)
        ensures
            r is Ok <==> blake3_hash(self.input()) == blake3_hash(device.input()),
            r matches Err(e) ==> (e matches Error::Io(x) && x.kind == IoErrorKind::InvalidData
                && x.message@ == "Verification Failed: BLAKE3 data mismatch"@),
    {
        let expected = hasher_digest(&self.hasher);
        let actual = hasher_digest(&device.hasher);
        check_digests(expected.as_slice(), actual.as_slice())
    }
}

} // verus!
