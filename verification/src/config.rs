//! Transfer pipeline configuration: every size used by the USB engine
//! derives from these constants.

use vstd::prelude::*;

verus! {

/// Pipeline depth: number of URBs that can be in flight simultaneously.
pub const URB_PIPELINE_DEPTH: usize = 32;

/// Number of buffers in the async pool (4 x 32MB = 128MB read-ahead).
pub const BUFFER_COUNT: usize = 4;

/// Size of each buffer in the async pool.
pub const ASYNC_BUFFER_SIZE: usize = 33554432;

/// Maximum transfer size for a single SCSI WRITE(10)/READ(10) command (4MB).
/// Falls back dynamically on CSW failure.
pub const SCSI_MAX_TRANSFER_SIZE: usize = 4194304;

/// Minimum transfer size floor for SCSI adaptive fallback (512KB).
pub const SCSI_MIN_TRANSFER_SIZE: usize = 524288;

/// Initial chunk size per bulk transfer (256KB).
/// AIMD halves on ENOMEM and additively recovers after 200 clean cycles.
pub const INITIAL_URB_CHUNK_SIZE: usize = 262144;

/// Minimum bulk chunk size (16KB).
pub const MIN_URB_CHUNK_SIZE: usize = 16384;

/// File read chunk size for the flasher.
pub const READ_CHUNK_SIZE: usize = ASYNC_BUFFER_SIZE;

/// Number of consecutive clean transfers after which the chunk size may grow.
pub const AIMD_RECOVERY_CALLS: u32 = 200;

} // verus!
