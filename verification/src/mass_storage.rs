//! USB Mass Storage device: the Bulk-Only Transport protocol.
//!
//! Every SCSI command travels as a CBW sent to the OUT endpoint, an optional
//! data phase, and a CSW read from the IN endpoint. The device state (LUN,
//! geometry, tag counter, adaptive transfer size) and every decision of the
//! protocol live here; the bulk transfers themselves are made by the caller,
//! which reports what each one moved.

use vstd::prelude::*;
use vstd::string::StringExecFns;
use crate::bytes::u32_le_at;
use crate::cbw::{CommandBlockWrapper, CBW_SIZE, cbw_of, Direction};
use crate::config::SCSI_MIN_TRANSFER_SIZE;
use crate::csw::{CommandStatusWrapper, CswStatus, CSW_SIZE, csw_well_formed, csw_of, csw_parse_error};
use crate::error::{Error, Result};
use crate::native::{NativeUsbBackend, BulkTransfer, BulkState, transfer_wf};
use crate::scsi::{
    ScsiInquiry,
    ScsiRead10,
    ScsiReadCapacity,
    ScsiTestUnitReady,
    ScsiWrite10,
    rw10_command,
    six_command,
    plain10_command,
};
use crate::text::{decimal, push_decimal, string_of};
use crate::bytes::u32_be_at;

verus! {

/// Maximum attempts of TEST UNIT READY during initialisation.
pub const MAX_RETRIES: u32 = 20;

/// Length of the INQUIRY response read during initialisation.
pub const INQUIRY_LENGTH: u8 = 36;

/// USB Backend implementation.
pub enum UsbBackend {
    Native(NativeUsbBackend),
}

impl UsbBackend {
    /// The backend's chunk sizes are within bounds.
    pub open spec fn wf(&self) -> bool {
        match self {
            UsbBackend::Native(n) => n.wf(),
        }
    }

    /// Starts sending `len` bytes to the device; the caller submits the
    /// chunks the backend asks for (`NativeUsbBackend::next_step`).
    pub fn bulk_out(&self, len: usize) -> (t: BulkTransfer)
        ensures
            t.len == len,
            t.done == 0,
            t.successes == 0,
            !t.is_in,
            t.pending == 0,
            t.state == BulkState::Running,
            transfer_wf(t),
    {
        let UsbBackend::Native(native) = self;
        native.begin_transfer(false, len)
    }

    /// Starts receiving `len` bytes from the device.
    pub fn bulk_in(&self, len: usize) -> (t: BulkTransfer)
        ensures
            t.len == len,
            t.done == 0,
            t.successes == 0,
            t.is_in,
            t.pending == 0,
            t.state == BulkState::Running,
            transfer_wf(t),
    {
        let UsbBackend::Native(native) = self;
        native.begin_transfer(true, len)
    }
}

/// The protocol state of a device.
pub struct StorageView {
    pub lun: u8,
    pub block_size: u32,
    pub block_count: u64,
    pub tag_counter: u32,
    pub max_transfer_size: usize,
}

/// USB Mass Storage device.
pub struct UsbMassStorage {
    /// The underlying USB communication backend.
    backend: UsbBackend,
    /// Logical Unit Number.
    lun: u8,
    /// Block size in bytes.
    block_size: u32,
    /// Total number of blocks.
    block_count: u64,
    /// Current tag counter for CBW/CSW matching.
    tag_counter: u32,
    /// Maximum transfer size (configurable for adaptive sizing).
    max_transfer_size: usize,
}

impl View for UsbMassStorage {
    type V = StorageView;

    closed spec fn view(&self) -> StorageView {
        StorageView {
            lun: self.lun,
            block_size: self.block_size,
            block_count: self.block_count,
            tag_counter: self.tag_counter,
            max_transfer_size: self.max_transfer_size,
        }
    }
}

/// The tag that follows `c`: counting up, wrapping past zero to 1.
pub open spec fn next_tag_value(c: u32) -> u32 {
    if c == u32::MAX {
        1
    } else {
        (c + 1) as u32
    }
}

/// The transfer size after a failed command: halved, not below 512KB, and
/// never raised.
pub open spec fn reduced_transfer_size(m: usize) -> usize {
    let half: usize = m / 2;
    let new_size: usize = if half > SCSI_MIN_TRANSFER_SIZE {
        half
    } else {
        SCSI_MIN_TRANSFER_SIZE
    };
    if new_size < m {
        new_size
    } else {
        m
    }
}

/// Blocks that one READ(10)/WRITE(10) may carry: as many as fit the transfer
/// size, at most 65535.
pub open spec fn max_blocks_per_transfer(s: StorageView) -> int {
    let b = s.max_transfer_size as int / s.block_size as int;
    if b < 65535 {
        b
    } else {
        65535
    }
}

/// The number of blocks of the next command of a transfer.
pub open spec fn next_command_blocks(remaining: int, block_size: int, max_blocks: int) -> int {
    let r = remaining / block_size;
    if r < max_blocks {
        r
    } else {
        max_blocks
    }
}

impl UsbMassStorage {
    /// The device state keeps a nonzero tag counter, and its backend keeps
    /// its chunk sizes within bounds.
    pub closed spec fn wf(&self) -> bool {
        &&& self.tag_counter != 0
        &&& self.backend.wf()
    }

    /// The backend the device talks through.
    pub closed spec fn backend_view(&self) -> UsbBackend {
        self.backend
    }

    /// A device on `backend`, before initialisation: 512-byte blocks, no
    /// capacity, tags starting at 1.
    pub fn with_backend(backend: UsbBackend, lun: u8, max_transfer_size: usize) -> (r: Self)
        requires
            backend.wf(),
        ensures
            r.wf(),
            r@.lun == lun,
            r@.block_size == 512,
            r@.block_count == 0,
            r@.tag_counter == 1,
            r@.max_transfer_size == max_transfer_size,
            r.backend_view() == backend,
    {
        UsbMassStorage { backend, lun, block_size: 512, block_count: 0, tag_counter: 1, max_transfer_size }
    }

    /// A device on the native backend, before initialisation (see
    /// `with_backend`); `init_command` and `init_step` bring it up.
    pub fn new_native(backend: NativeUsbBackend, lun: u8, max_transfer_size: usize) -> (r: Self)
        requires
            backend.wf(),
        ensures
            r.wf(),
            r@.lun == lun,
            r@.block_size == 512,
            r@.block_count == 0,
            r@.tag_counter == 1,
            r@.max_transfer_size == max_transfer_size,
            r.backend_view() == UsbBackend::Native(backend),
    {
        UsbMassStorage::with_backend(UsbBackend::Native(backend), lun, max_transfer_size)
    }

    /// The backend, for the caller that performs the bulk transfers.
    pub fn backend(&self) -> (r: &UsbBackend)
        ensures
            *r == self.backend_view(),
    {
        &self.backend
    }

    /// The native backend, for updating its chunk sizes as transfers go.
    pub fn native_backend_mut(&mut self) -> (r: &mut NativeUsbBackend)
        ensures
            old(self).backend_view() == UsbBackend::Native(*r),
            final(self).backend_view() == UsbBackend::Native(*final(r)),
            final(self)@ == old(self)@,
            old(self).wf() && final(r).wf() ==> final(self).wf(),
            old(self).wf() ==> r.wf(),
    {
        match &mut self.backend {
            UsbBackend::Native(n) => n,
        }
    }

    /// Get the Logical Unit Number.
    pub fn lun(&self) -> (r: u8)
        ensures
            r == self@.lun,
    {
        self.lun
    }

    /// Get the block size in bytes.
    pub fn block_size(&self) -> (r: u32)
        ensures
            r == self@.block_size,
    {
        self.block_size
    }

    /// Get the total number of blocks.
    pub fn block_count(&self) -> (r: u64)
        ensures
            r == self@.block_count,
    {
        self.block_count
    }

    /// Get the total capacity in bytes.
    pub fn capacity(&self) -> (r: u64)
        requires
            self@.block_count * self@.block_size <= u64::MAX,
        ensures
            r == self@.block_count * self@.block_size,
    {
        self.block_count * self.block_size as u64
    }

    /// Get next tag and increment counter (wrapping past zero to 1).
    pub fn next_tag(&mut self) -> (tag: u32)
        requires
            old(self).wf(),
        ensures
            final(self).wf(),
            tag == old(self)@.tag_counter,
            tag != 0,
            final(self)@.tag_counter == next_tag_value(old(self)@.tag_counter),
            final(self)@.lun == old(self)@.lun,
            final(self)@.block_size == old(self)@.block_size,
            final(self)@.block_count == old(self)@.block_count,
            final(self)@.max_transfer_size == old(self)@.max_transfer_size,
            final(self).backend_view() == old(self).backend_view(),
    {
        let tag = self.tag_counter;
        self.tag_counter = self.tag_counter.wrapping_add(1);
        if self.tag_counter == 0 {
            self.tag_counter = 1;
        }
        tag
    }

    /// Get the maximum transfer size for SCSI commands.
    pub fn max_transfer_size(&self) -> (r: usize)
        ensures
            r == self@.max_transfer_size,
    {
        self.max_transfer_size
    }

    /// Reduce max transfer size on SCSI command failure (adaptive fallback).
    /// Halves until the floor is reached, then stays at minimum.
    pub fn reduce_max_transfer_size(&mut self)
        requires
            old(self).wf(),
        ensures
            final(self).wf(),
            final(self)@.max_transfer_size == reduced_transfer_size(old(self)@.max_transfer_size),
            final(self)@.lun == old(self)@.lun,
            final(self)@.block_size == old(self)@.block_size,
            final(self)@.block_count == old(self)@.block_count,
            final(self)@.tag_counter == old(self)@.tag_counter,
            final(self).backend_view() == old(self).backend_view(),
    {
        let half = self.max_transfer_size / 2;
        let new_size = if half > SCSI_MIN_TRANSFER_SIZE {
            half
        } else {
            SCSI_MIN_TRANSFER_SIZE
        };
        if new_size < self.max_transfer_size {
            self.max_transfer_size = new_size;
        }
    }
}

// ── One command: CBW, data phase, CSW ─────────────────────────────────────

/// Where a command stands.
#[derive(Debug, Clone, Copy, PartialEq, Eq, Structural)]
pub enum CommandPhase {
    SendCbw,
    Data,
    ReceiveCsw,
}

/// One SCSI command in flight.
#[derive(Debug, Clone, Copy)]
pub struct CommandTransfer {
    /// Tag the CSW must echo.
    pub tag: u32,
    /// Bytes the CBW announces for the data phase.
    pub data_length: usize,
    /// The data phase reads from the device.
    pub is_read: bool,
    /// Length of the caller's buffer for the data phase, if it has one.
    pub buffer_len: Option<usize>,
    /// Bytes moved in the data phase so far.
    pub transferred: usize,
    pub phase: CommandPhase,
}

/// What the caller does next for a command.
#[derive(Debug, Clone, Copy, PartialEq, Eq, Structural)]
pub enum CommandAction {
    /// Read from the device into the buffer from `offset` to its end.
    DataIn { offset: usize },
    /// Write the buffer from `offset` to its end to the device.
    DataOut { offset: usize },
    /// Read the 13-byte CSW.
    ReceiveCsw,
}

/// Bytes the data phase aims to move: the announced length, bounded by the
/// buffer.
pub open spec fn data_limit(t: CommandTransfer) -> int {
    match t.buffer_len {
        Some(n) => if t.data_length < n {
            t.data_length as int
        } else {
            n as int
        },
        None => 0,
    }
}

/// The step after `transferred` bytes of the data phase have moved.
pub open spec fn data_step(t: CommandTransfer, transferred: int) -> CommandAction {
    if transferred < data_limit(t) {
        if t.is_read {
            CommandAction::DataIn { offset: transferred as usize }
        } else {
            CommandAction::DataOut { offset: transferred as usize }
        }
    } else {
        CommandAction::ReceiveCsw
    }
}

/// A command's counters fit its buffer.
pub open spec fn command_wf(t: CommandTransfer) -> bool {
    &&& t.transferred <= data_limit(t)
    &&& t.phase == CommandPhase::SendCbw ==> t.transferred == 0
}

/// Starts a command: its tag and announced length come from the CBW, and it
/// reads when the CBW's flags are 0x80. `buffer_len` is the length of the
/// buffer of its direction, if the caller has one.
pub fn begin_command(cbw: &CommandBlockWrapper, buffer_len: Option<usize>) -> (t: CommandTransfer)
    ensures
        t.tag == cbw.tag,
        t.data_length == cbw.data_transfer_length,
        t.is_read == (cbw.flags == 0x80),
        t.buffer_len == buffer_len,
        t.transferred == 0,
        t.phase == CommandPhase::SendCbw,
        command_wf(t),
{
    CommandTransfer {
        tag: cbw.tag,
        data_length: cbw.data_transfer_length as usize,
        is_read: cbw.flags == 0x80,
        buffer_len,
        transferred: 0,
        phase: CommandPhase::SendCbw,
    }
}

/// The CBW went out, `written` bytes of it. Anything but the full 31 bytes
/// fails the command; otherwise the data phase starts if there is data to
/// move, else the CSW is read.
pub fn cbw_sent(t: &mut CommandTransfer, written: usize) -> (r: Result<CommandAction>)
    requires
        old(t).phase == CommandPhase::SendCbw,
        command_wf(*old(t)),
    ensures
        written != CBW_SIZE ==> (r matches Err(Error::UsbError(m)) && m@ == "CBW write incomplete: "@
            + decimal(written as nat) + " != 31"@),
        written == CBW_SIZE ==> (r matches Ok(a) && a == data_step(*old(t), 0)),
        r is Ok ==> (final(t).phase == (if data_limit(*old(t)) > 0 {
            CommandPhase::Data
        } else {
            CommandPhase::ReceiveCsw
        })),
        final(t).tag == old(t).tag,
        final(t).data_length == old(t).data_length,
        final(t).is_read == old(t).is_read,
        final(t).buffer_len == old(t).buffer_len,
        final(t).transferred == 0,
        command_wf(*final(t)),
{
    if written != CBW_SIZE {
        let mut m = string_of("CBW write incomplete: ");
        push_decimal(&mut m, written as u64);
        m.append(" != 31");
        return Err(Error::UsbError(m));
    }
    let limit = match t.buffer_len {
        Some(n) => if t.data_length < n {
            t.data_length
        } else {
            n
        },
        None => 0,
    };
    if 0 < limit {
        t.phase = CommandPhase::Data;
        if t.is_read {
            Ok(CommandAction::DataIn { offset: 0 })
        } else {
            Ok(CommandAction::DataOut { offset: 0 })
        }
    } else {
        t.phase = CommandPhase::ReceiveCsw;
        Ok(CommandAction::ReceiveCsw)
    }
}

/// A data-phase call moved `n` bytes. A call that moves nothing ends the data
/// phase; otherwise it continues until the limit is reached.
pub fn data_moved(t: &mut CommandTransfer, n: usize) -> (r: CommandAction)
    requires
        old(t).phase == CommandPhase::Data,
        command_wf(*old(t)),
        old(t).buffer_len matches Some(len) && n <= len - old(t).transferred,
    ensures
        n == 0 ==> r == CommandAction::ReceiveCsw && final(t).transferred == old(t).transferred,
        n > 0 ==> r == data_step(*old(t), old(t).transferred + n) && final(t).transferred
            == old(t).transferred + n,
        final(t).phase == (if r is ReceiveCsw {
            CommandPhase::ReceiveCsw
        } else {
            CommandPhase::Data
        }),
        final(t).tag == old(t).tag,
        final(t).data_length == old(t).data_length,
        final(t).is_read == old(t).is_read,
        final(t).buffer_len == old(t).buffer_len,
        final(t).transferred <= old(t).buffer_len.unwrap(),
{
    if n == 0 {
        t.phase = CommandPhase::ReceiveCsw;
        return CommandAction::ReceiveCsw;
    }
    t.transferred = t.transferred + n;
    let limit = match t.buffer_len {
        Some(len) => if t.data_length < len {
            t.data_length
        } else {
            len
        },
        None => 0,
    };
    if t.transferred < limit {
        if t.is_read {
            CommandAction::DataIn { offset: t.transferred }
        } else {
            CommandAction::DataOut { offset: t.transferred }
        }
    } else {
        t.phase = CommandPhase::ReceiveCsw;
        CommandAction::ReceiveCsw
    }
}

/// The outcome of a command given the CSW bytes and how many were read.
pub open spec fn command_outcome_ok(tag: u32, csw: Seq<u8>, read: usize) -> bool {
    &&& read == CSW_SIZE
    &&& csw_well_formed(csw)
    &&& csw_of(csw).tag == tag
    &&& csw_of(csw).status == CswStatus::Passed
}

/// The CSW was read: `read` bytes into `csw`.
pub open spec fn command_failed_status(tag: u32, csw: Seq<u8>, read: usize) -> bool {
    &&& read == CSW_SIZE
    &&& csw_well_formed(csw)
    &&& csw_of(csw).tag == tag
    &&& csw_of(csw).status == CswStatus::Failed
}

impl UsbMassStorage {
    /// Finishes a command from its CSW. A short read, a malformed CSW, a tag
    /// that does not match, or a failed or phase-error status fails the
    /// command; a failed status also halves the transfer size for the next
    /// command.
    pub fn csw_received(&mut self, t: &CommandTransfer, csw: &[u8], read: usize) -> (r: Result<()>)
        requires
            old(self).wf(),
            t.phase == CommandPhase::ReceiveCsw,
        ensures
            final(self).wf(),
            r is Ok <==> command_outcome_ok(t.tag, csw@, read),
            read != CSW_SIZE ==> (r matches Err(Error::UsbError(m)) && m@ == "CSW read incomplete: "@
                + decimal(read as nat) + " != 13"@),
            read == CSW_SIZE && !csw_well_formed(csw@) ==> (r matches Err(Error::UsbError(m)) && m@
                == csw_parse_error(csw@)),
            read == CSW_SIZE && csw_well_formed(csw@) && csw_of(csw@).tag != t.tag ==> (r matches Err(
                Error::UsbError(m),
            ) && m@ == "CSW tag mismatch: "@ + decimal(csw_of(csw@).tag as nat) + " != "@ + decimal(
                t.tag as nat,
            )),
            command_failed_status(t.tag, csw@, read) ==> (r matches Err(Error::UsbError(m)) && m@
                == "SCSI command failed"@),
            read == CSW_SIZE && csw_well_formed(csw@) && csw_of(csw@).tag == t.tag && csw_of(
                csw@,
            ).status == CswStatus::PhaseError ==> (r matches Err(Error::UsbError(m)) && m@
                == "SCSI phase error - device reset required"@),
            final(self)@.max_transfer_size == (if command_failed_status(t.tag, csw@, read) {
                reduced_transfer_size(old(self)@.max_transfer_size)
            } else {
                old(self)@.max_transfer_size
            }),
            final(self)@.lun == old(self)@.lun,
            final(self)@.block_size == old(self)@.block_size,
            final(self)@.block_count == old(self)@.block_count,
            final(self)@.tag_counter == old(self)@.tag_counter,
            final(self).backend_view() == old(self).backend_view(),
    {
        if read != CSW_SIZE {
            let mut m = string_of("CSW read incomplete: ");
            push_decimal(&mut m, read as u64);
            m.append(" != 13");
            return Err(Error::UsbError(m));
        }
        let c = match CommandStatusWrapper::parse(csw) {
            Ok(c) => c,
            Err(e) => return Err(e),
        };
        if c.tag != t.tag {
            let mut m = string_of("CSW tag mismatch: ");
            push_decimal(&mut m, c.tag as u64);
            m.append(" != ");
            push_decimal(&mut m, t.tag as u64);
            return Err(Error::UsbError(m));
        }
        match c.status {
            CswStatus::Passed => Ok(()),
            CswStatus::Failed => {
                self.reduce_max_transfer_size();
                Err(Error::UsbError(string_of("SCSI command failed")))
            },
            CswStatus::PhaseError => Err(
                Error::UsbError(string_of("SCSI phase error - device reset required")),
            ),
        }
    }
}

// ── Block transfers: READ(10) / WRITE(10) sequences ────────────────────────

/// A read or write of whole blocks, split into commands of at most
/// `max_blocks` blocks each.
#[derive(Debug, Clone, Copy)]
pub struct BlockTransfer {
    /// First block of the transfer.
    pub start_block: u64,
    /// Bytes of the caller's buffer.
    pub len: usize,
    /// Bytes covered by the commands so far.
    pub offset: usize,
    /// Block the next command starts at.
    pub current_block: u64,
    /// Block size the transfer was planned with.
    pub block_size: u32,
    /// Blocks per command.
    pub max_blocks: usize,
    pub is_write: bool,
}

/// One command of a block transfer: its CBW and the part of the buffer it
/// carries.
#[derive(Debug, Clone)]
pub struct BlockCommand {
    pub cbw: CommandBlockWrapper,
    pub offset: usize,
    pub bytes: usize,
    pub blocks: u16,
}

/// A block transfer's counters: whole blocks, in range, the next block
/// following from the bytes already covered.
pub open spec fn block_transfer_wf(bt: BlockTransfer) -> bool {
    &&& bt.block_size > 0
    &&& bt.max_blocks <= 65535
    &&& bt.len > 0 ==> bt.max_blocks > 0
    &&& (bt.len as int) % (bt.block_size as int) == 0
    &&& bt.offset <= bt.len
    &&& (bt.offset as int) % (bt.block_size as int) == 0
    &&& bt.current_block == bt.start_block + (bt.offset as int) / (bt.block_size as int)
    &&& bt.start_block + (bt.len as int) / (bt.block_size as int) <= u64::MAX
}

/// What a block transfer needs of the device, as the plain loop would have
/// it: a buffer of whole blocks is covered in commands of at least one
/// block, and its last block number fits 64 bits. (A buffer of partial
/// blocks is refused before anything is planned.)
pub open spec fn blocks_plan_ok(s: StorageView, start_block: u64, len: usize) -> bool {
    (len as int) % (s.block_size as int) == 0 ==> {
        &&& len > 0 ==> max_blocks_per_transfer(s) >= 1
        &&& start_block + (len as int) / (s.block_size as int) <= u64::MAX
    }
}

/// The next command's byte count fits the 32-bit length of its CBW.
pub open spec fn next_command_fits(bt: BlockTransfer) -> bool {
    bt.offset < bt.len ==> next_command_blocks(
        bt.len - bt.offset,
        bt.block_size as int,
        bt.max_blocks as int,
    ) * bt.block_size <= u32::MAX
}

/// The transfer has covered the whole buffer.
pub open spec fn block_transfer_done(bt: BlockTransfer) -> bool {
    bt.offset >= bt.len
}

impl UsbMassStorage {
    /// Plans a transfer of `len` bytes starting at `start_block`. The buffer
    /// must hold whole blocks.
    pub fn begin_blocks(&self, start_block: u64, len: usize, is_write: bool) -> (r: Result<
        BlockTransfer,
    >)
        requires
            self@.block_size > 0,
            blocks_plan_ok(self@, start_block, len),
        ensures
            (len as int) % (self@.block_size as int) != 0 ==> (r matches Err(Error::UsbError(m)) && m@
                == "Buffer size must be multiple of block size"@),
            (len as int) % (self@.block_size as int) == 0 ==> (r matches Ok(bt) && bt.start_block
                == start_block && bt.len == len && bt.offset == 0 && bt.current_block == start_block
                && bt.block_size == self@.block_size && bt.max_blocks == max_blocks_per_transfer(
                self@,
            ) && bt.is_write == is_write && block_transfer_wf(bt)),
    {
        let bs = self.block_size as usize;
        if len % bs != 0 {
            return Err(Error::UsbError(string_of("Buffer size must be multiple of block size")));
        }
        let by_size = self.max_transfer_size / bs;
        let max_blocks = if by_size < 65535 {
            by_size
        } else {
            65535
        };
        Ok(
            BlockTransfer {
                start_block,
                len,
                offset: 0,
                current_block: start_block,
                block_size: self.block_size,
                max_blocks,
                is_write,
            },
        )
    }

    /// The next command of a block transfer, or `None` once the buffer is
    /// covered. Each command takes a fresh tag and carries as many whole
    /// blocks as remain, at most `max_blocks`; its LBA is the next block,
    /// truncated to 32 bits.
    #[verifier::spinoff_prover]
    #[verifier::rlimit(40)]
    pub fn next_block_command(&mut self, bt: &BlockTransfer) -> (r: Option<BlockCommand>)
        requires
            old(self).wf(),
            block_transfer_wf(*bt),
            next_command_fits(*bt),
        ensures
            final(self).wf(),
            block_transfer_done(*bt) ==> r is None && final(self)@ == old(self)@,
            !block_transfer_done(*bt) ==> (r matches Some(cmd) && {
                let blocks = next_command_blocks(
                    bt.len - bt.offset,
                    bt.block_size as int,
                    bt.max_blocks as int,
                );
                &&& cmd.offset == bt.offset
                &&& cmd.blocks == blocks
                &&& cmd.bytes == blocks * bt.block_size
                &&& 0 < cmd.bytes
                &&& cmd.offset + cmd.bytes <= bt.len
                &&& cbw_of(
                    cmd.cbw,
                    old(self)@.tag_counter,
                    (blocks * bt.block_size) as u32,
                    if bt.is_write {
                        Direction::Out
                    } else {
                        Direction::In
                    },
                    old(self)@.lun,
                    rw10_command(
                        if bt.is_write {
                            0x2Au8
                        } else {
                            0x28u8
                        },
                        bt.current_block as u32,
                        blocks as u16,
                    ),
                )
                &&& final(self)@.tag_counter == next_tag_value(old(self)@.tag_counter)
            }),
            final(self)@.lun == old(self)@.lun,
            final(self)@.block_size == old(self)@.block_size,
            final(self)@.block_count == old(self)@.block_count,
            final(self)@.max_transfer_size == old(self)@.max_transfer_size,
            final(self).backend_view() == old(self).backend_view(),
    {
        if bt.offset >= bt.len {
            return None;
        }
        let bs = bt.block_size as usize;
        let blocks_remaining = (bt.len - bt.offset) / bs;
        let blocks = if blocks_remaining < bt.max_blocks {
            blocks_remaining
        } else {
            bt.max_blocks
        };
        proof {
            assert((bt.len - bt.offset) % (bs as int) == 0) by {
                vstd::arithmetic::div_mod::lemma_sub_mod_noop(bt.len as int, bt.offset as int, bs as int);
                assert((bt.len as int) % (bs as int) == 0);
                assert((bt.offset as int) % (bs as int) == 0);
                vstd::arithmetic::div_mod::lemma_small_mod(0nat, bs as nat);
                assert((0int - 0int) % (bs as int) == 0);
            }
            assert(blocks_remaining >= 1) by {
                let x = (bt.len - bt.offset) as int;
                vstd::arithmetic::div_mod::lemma_fundamental_div_mod(x, bs as int);
                assert(x / (bs as int) >= 1) by (nonlinear_arith)
                    requires
                        x == (bs as int) * (x / (bs as int)) + x % (bs as int),
                        x % (bs as int) == 0,
                        x > 0,
                        bs > 0;
            }
            assert(blocks * bs <= bt.max_blocks * bs) by (nonlinear_arith)
                requires blocks <= bt.max_blocks;
            assert(blocks * bs <= blocks_remaining * bs) by (nonlinear_arith)
                requires blocks <= blocks_remaining;
            vstd::arithmetic::div_mod::lemma_fundamental_div_mod(bt.len - bt.offset, bs as int);
            assert(blocks * bs > 0) by (nonlinear_arith)
                requires blocks >= 1, bs > 0;
        }
        let bytes = blocks * bs;
        assert(bytes <= bt.len - bt.offset);
        assert(blocks == next_command_blocks(bt.len - bt.offset, bt.block_size as int, bt.max_blocks as int));
        let tag = self.next_tag();
        let cbw = if bt.is_write {
            ScsiWrite10::cbw(tag, self.lun, bt.current_block as u32, blocks as u16, bt.block_size)
        } else {
            ScsiRead10::cbw(tag, self.lun, bt.current_block as u32, blocks as u16, bt.block_size)
        };
        Some(BlockCommand { cbw, offset: bt.offset, bytes, blocks: blocks as u16 })
    }
}

impl BlockTransfer {
    /// Marks a command as done: the buffer offset and the next block move
    /// past it.
    #[verifier::spinoff_prover]
    #[verifier::rlimit(40)]
    pub fn advance(&mut self, cmd: &BlockCommand)
        requires
            block_transfer_wf(*old(self)),
            cmd.offset == old(self).offset,
            cmd.bytes == cmd.blocks * old(self).block_size,
            0 < cmd.bytes,
            cmd.offset + cmd.bytes <= old(self).len,
        ensures
            block_transfer_wf(*final(self)),
            final(self).offset == old(self).offset + cmd.bytes,
            final(self).current_block == old(self).current_block + cmd.blocks,
            final(self).start_block == old(self).start_block,
            final(self).len == old(self).len,
            final(self).block_size == old(self).block_size,
            final(self).max_blocks == old(self).max_blocks,
            final(self).is_write == old(self).is_write,
    {
        let ghost bs = self.block_size as int;
        let ghost o = self.offset as int;
        let ghost k = cmd.blocks as int;
        let ghost q = o / bs + k;
        proof {
            vstd::arithmetic::div_mod::lemma_fundamental_div_mod(o, bs);
            assert(o + cmd.bytes == q * bs) by (nonlinear_arith)
                requires
                    o == bs * (o / bs) + o % bs,
                    o % bs == 0,
                    cmd.bytes == k * bs,
                    q == o / bs + k,
            ;
            vstd::arithmetic::div_mod::lemma_mod_multiples_basic(q, bs);
            vstd::arithmetic::div_mod::lemma_div_multiples_vanish(q, bs);
            assert(bs * q == q * bs) by (nonlinear_arith);
            vstd::arithmetic::div_mod::lemma_div_is_ordered(q * bs, self.len as int, bs);
            assert(q <= (self.len as int) / bs);
        }
        self.offset = self.offset + cmd.bytes;
        self.current_block = self.current_block + cmd.blocks as u64;
        assert(self.offset as int == q * bs);
        assert((self.offset as int) % bs == 0);
        assert((self.offset as int) / bs == q);
    }
}

impl BlockTransfer {
    /// The device position reached after the commands so far, counted from
    /// `base_pos`.
    pub fn progress(&self, base_pos: u64) -> (r: u64)
        requires
            base_pos + self.offset <= u64::MAX,
        ensures
            r == base_pos + self.offset,
    {
        base_pos + self.offset as u64
    }
}

// ── Initialisation: INQUIRY, TEST UNIT READY, READ CAPACITY ───────────────

/// Where initialisation stands.
#[derive(Debug, Clone, Copy, PartialEq, Eq, Structural)]
pub enum InitStage {
    Inquiry,
    /// TEST UNIT READY, with the number of the attempt (from 0).
    TestUnitReady(u32),
    ReadCapacity,
}

/// What the caller does after an initialisation command.
#[derive(Debug, Clone, Copy, PartialEq, Eq, Structural)]
pub enum InitAction {
    /// Issue the command of the new stage.
    Continue,
    /// Wait 100ms, then issue the command of the new stage.
    RetryAfterDelay,
    /// The device is initialised.
    Done,
}

/// An initialisation command and the length of its data phase.
#[derive(Debug, Clone)]
pub struct InitCommand {
    pub cbw: CommandBlockWrapper,
    pub read_len: usize,
}

impl UsbMassStorage {
    /// The command of an initialisation stage: INQUIRY of 36 bytes, TEST UNIT
    /// READY without data, READ CAPACITY of 8 bytes. Each takes a fresh tag.
    pub fn init_command(&mut self, stage: InitStage) -> (r: InitCommand)
        requires
            old(self).wf(),
        ensures
            final(self).wf(),
            final(self)@.tag_counter == next_tag_value(old(self)@.tag_counter),
            stage == InitStage::Inquiry ==> r.read_len == 36 && cbw_of(
                r.cbw,
                old(self)@.tag_counter,
                36,
                Direction::In,
                old(self)@.lun,
                six_command(0x12, 36),
            ),
            stage is TestUnitReady ==> r.read_len == 0 && cbw_of(
                r.cbw,
                old(self)@.tag_counter,
                0,
                Direction::Out,
                old(self)@.lun,
                six_command(0x00, 0),
            ),
            stage == InitStage::ReadCapacity ==> r.read_len == 8 && cbw_of(
                r.cbw,
                old(self)@.tag_counter,
                8,
                Direction::In,
                old(self)@.lun,
                plain10_command(0x25),
            ),
            final(self)@.lun == old(self)@.lun,
            final(self)@.block_size == old(self)@.block_size,
            final(self)@.block_count == old(self)@.block_count,
            final(self)@.max_transfer_size == old(self)@.max_transfer_size,
            final(self).backend_view() == old(self).backend_view(),
    {
        let tag = self.next_tag();
        match stage {
            InitStage::Inquiry => InitCommand {
                cbw: ScsiInquiry::cbw(tag, self.lun, INQUIRY_LENGTH),
                read_len: 36,
            },
            InitStage::TestUnitReady(_) => InitCommand {
                cbw: ScsiTestUnitReady::cbw(tag, self.lun),
                read_len: 0,
            },
            InitStage::ReadCapacity => InitCommand {
                cbw: ScsiReadCapacity::cbw(tag, self.lun),
                read_len: 8,
            },
        }
    }

    /// Advances initialisation with the outcome of the stage's command and
    /// the data it read. A failed INQUIRY or READ CAPACITY ends it with that
    /// error; TEST UNIT READY is tried up to 20 times, 100ms apart, and its
    /// last error ends it. READ CAPACITY sets the block size and the block
    /// count (last block address + 1) from the big-endian response.
    pub fn init_step(&mut self, stage: &mut InitStage, outcome: Result<()>, data: &[u8]) -> (r:
        Result<InitAction>)
        requires
            old(self).wf(),
            *old(stage) is TestUnitReady ==> old(stage)->TestUnitReady_0 < MAX_RETRIES,
        ensures
            final(self).wf(),
            *final(stage) is TestUnitReady ==> final(stage)->TestUnitReady_0 < MAX_RETRIES,
            final(self)@.lun == old(self)@.lun,
            final(self)@.tag_counter == old(self)@.tag_counter,
            final(self)@.max_transfer_size == old(self)@.max_transfer_size,
            final(self).backend_view() == old(self).backend_view(),
            outcome is Err && !(*old(stage) is TestUnitReady && old(stage)->TestUnitReady_0 + 1
                < MAX_RETRIES) ==> (r == Err::<InitAction, Error>(outcome->Err_0) && final(self)@
                == old(self)@),
            *old(stage) == InitStage::Inquiry && outcome is Ok ==> (r == Ok::<InitAction, Error>(
                InitAction::Continue,
            ) && *final(stage) == InitStage::TestUnitReady(0) && final(self)@ == old(self)@),
            *old(stage) is TestUnitReady && outcome is Ok ==> (r == Ok::<InitAction, Error>(
                InitAction::Continue,
            ) && *final(stage) == InitStage::ReadCapacity && final(self)@ == old(self)@),
            *old(stage) is TestUnitReady && outcome is Err && old(stage)->TestUnitReady_0 + 1
                < MAX_RETRIES ==> (r == Ok::<InitAction, Error>(InitAction::RetryAfterDelay)
                && *final(stage) == InitStage::TestUnitReady(
                (old(stage)->TestUnitReady_0 + 1) as u32,
            ) && final(self)@ == old(self)@),
            *old(stage) == InitStage::ReadCapacity && outcome is Ok && data@.len() >= 8 ==> (r
                == Ok::<InitAction, Error>(InitAction::Done) && final(self)@.block_size
                == u32_be_at(data@, 4) && final(self)@.block_count == u32_be_at(data@, 0) + 1),
            *old(stage) == InitStage::ReadCapacity && outcome is Ok && data@.len() < 8 ==> (r matches Err(
                Error::UsbError(m),
            ) && m@ == "Failed to parse READ CAPACITY response"@ && final(self)@ == old(self)@),
    {
        match *stage {
            InitStage::Inquiry => match outcome {
                Ok(()) => {
                    *stage = InitStage::TestUnitReady(0);
                    Ok(InitAction::Continue)
                },
                Err(e) => Err(e),
            },
            InitStage::TestUnitReady(attempt) => match outcome {
                Ok(()) => {
                    *stage = InitStage::ReadCapacity;
                    Ok(InitAction::Continue)
                },
                Err(e) => {
                    if attempt < MAX_RETRIES - 1 {
                        *stage = InitStage::TestUnitReady(attempt + 1);
                        Ok(InitAction::RetryAfterDelay)
                    } else {
                        Err(e)
                    }
                },
            },
            InitStage::ReadCapacity => match outcome {
                Ok(()) => match ScsiReadCapacity::parse_response(data) {
                    Some((last_block, block_size)) => {
                        self.block_size = block_size;
                        self.block_count = last_block as u64 + 1;
                        Ok(InitAction::Done)
                    },
                    None => Err(
                        Error::UsbError(string_of("Failed to parse READ CAPACITY response")),
                    ),
                },
                Err(e) => Err(e),
            },
        }
    }
}


impl UsbMassStorage {
    /// Plans reading `len` bytes from block `lba` on (see `begin_blocks`).
    pub fn read_blocks(&self, lba: u64, len: usize) -> (r: Result<BlockTransfer>)
        requires
            self@.block_size > 0,
            blocks_plan_ok(self@, lba, len),
        ensures
            (len as int) % (self@.block_size as int) != 0 ==> (r matches Err(Error::UsbError(m)) && m@
                == "Buffer size must be multiple of block size"@),
            (len as int) % (self@.block_size as int) == 0 ==> (r matches Ok(bt) && bt.start_block
                == lba && bt.len == len && bt.offset == 0 && bt.current_block == lba
                && bt.block_size == self@.block_size && bt.max_blocks == max_blocks_per_transfer(
                self@,
            ) && !bt.is_write && block_transfer_wf(bt)),
    {
        self.begin_blocks(lba, len, false)
    }

    /// Plans writing `len` bytes from block `lba` on (see `begin_blocks`).
    pub fn write_blocks(&self, lba: u64, len: usize) -> (r: Result<BlockTransfer>)
        requires
            self@.block_size > 0,
            blocks_plan_ok(self@, lba, len),
        ensures
            (len as int) % (self@.block_size as int) != 0 ==> (r matches Err(Error::UsbError(m)) && m@
                == "Buffer size must be multiple of block size"@),
            (len as int) % (self@.block_size as int) == 0 ==> (r matches Ok(bt) && bt.start_block
                == lba && bt.len == len && bt.offset == 0 && bt.current_block == lba
                && bt.block_size == self@.block_size && bt.max_blocks == max_blocks_per_transfer(
                self@,
            ) && bt.is_write && block_transfer_wf(bt)),
    {
        self.begin_blocks(lba, len, true)
    }

    /// Plans writing `len` bytes from block `lba` on, reporting progress
    /// (`BlockTransfer::progress`) after each command.
    pub fn write_blocks_with_progress(&self, lba: u64, len: usize) -> (r: Result<BlockTransfer>)
        requires
            self@.block_size > 0,
            blocks_plan_ok(self@, lba, len),
        ensures
            (len as int) % (self@.block_size as int) != 0 ==> (r matches Err(Error::UsbError(m)) && m@
                == "Buffer size must be multiple of block size"@),
            (len as int) % (self@.block_size as int) == 0 ==> (r matches Ok(bt) && bt.start_block
                == lba && bt.len == len && bt.offset == 0 && bt.current_block == lba
                && bt.block_size == self@.block_size && bt.max_blocks == max_blocks_per_transfer(
                self@,
            ) && bt.is_write && block_transfer_wf(bt)),
    {
        self.begin_blocks(lba, len, true)
    }
}


/// Tags are never 0: every tag handed out is followed by a nonzero one, so
/// a CSW can always be matched to its command.
pub proof fn lemma_next_tag_nonzero(c: u32)
    ensures
        next_tag_value(c) != 0,
        c != u32::MAX ==> next_tag_value(c) == c + 1,
{
}

/// A failed command never raises the transfer size and never takes it
/// below the 512KB floor it starts at or above; above twice the floor it
/// halves, and at the floor it stays.
pub proof fn lemma_reduction_bounds(m: usize)
    ensures
        reduced_transfer_size(m) <= m,
        m >= SCSI_MIN_TRANSFER_SIZE ==> reduced_transfer_size(m) >= SCSI_MIN_TRANSFER_SIZE,
        m >= 2 * SCSI_MIN_TRANSFER_SIZE ==> reduced_transfer_size(m) == m / 2,
        m == SCSI_MIN_TRANSFER_SIZE ==> reduced_transfer_size(m) == m,
{
}

} // verus!
