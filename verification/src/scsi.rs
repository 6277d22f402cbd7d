//! SCSI commands for USB Mass Storage.
//!
//! Implements the SCSI commands needed for block device I/O: INQUIRY,
//! TEST UNIT READY, READ CAPACITY, READ(10), WRITE(10), REQUEST SENSE,
//! START STOP UNIT and SYNCHRONIZE CACHE.

use vstd::prelude::*;
use crate::bytes::{be16, be32, u32_be_at, read_u32_be};
use crate::cbw::{CommandBlockWrapper, Direction, cbw_of};

verus! {

/// The 10-byte block of READ(10) or WRITE(10): opcode, flags, big-endian
/// LBA, a reserved byte, big-endian block count and control.
pub open spec fn rw10_command(opcode: u8, lba: u32, transfer_blocks: u16) -> Seq<u8> {
    seq![opcode, 0u8] + be32(lba) + seq![0u8] + be16(transfer_blocks) + seq![0u8]
}

/// Ten bytes holding `opcode` followed by zeros.
pub open spec fn plain10_command(opcode: u8) -> Seq<u8> {
    seq![opcode, 0u8, 0u8, 0u8, 0u8, 0u8, 0u8, 0u8, 0u8, 0u8]
}

/// Six bytes: `opcode`, three zeros, `byte4`, a zero.
pub open spec fn six_command(opcode: u8, byte4: u8) -> Seq<u8> {
    seq![opcode, 0u8, 0u8, 0u8, byte4, 0u8]
}

fn rw10(opcode: u8, lba: u32, transfer_blocks: u16) -> (r: [u8; 10])
    ensures
        r@ == rw10_command(opcode, lba, transfer_blocks),
{
    let r = [
        opcode,
        0x00,
        (lba >> 24u32) as u8,
        (lba >> 16u32) as u8,
        (lba >> 8u32) as u8,
        lba as u8,
        0x00,
        (transfer_blocks >> 8u16) as u8,
        transfer_blocks as u8,
        0x00,
    ];
    assert(r@ =~= rw10_command(opcode, lba, transfer_blocks));
    r
}

fn plain10(opcode: u8) -> (r: [u8; 10])
    ensures
        r@ == plain10_command(opcode),
{
    let r = [opcode, 0, 0, 0, 0, 0, 0, 0, 0, 0];
    assert(r@ =~= plain10_command(opcode));
    r
}

fn six(opcode: u8, byte4: u8) -> (r: [u8; 6])
    ensures
        r@ == six_command(opcode, byte4),
{
    let r = [opcode, 0, 0, 0, byte4, 0];
    assert(r@ =~= six_command(opcode, byte4));
    r
}

/// SCSI INQUIRY command (0x12).
/// Queries device identification and capabilities.
pub struct ScsiInquiry;

impl ScsiInquiry {
    /// Op code for INQUIRY.
    pub const OPCODE: u8 = 0x12;

    /// Create INQUIRY command bytes.
    pub fn command(allocation_length: u8) -> (r: [u8; 6])
        ensures
            r@ == six_command(0x12, allocation_length),
    {
        six(Self::OPCODE, allocation_length)
    }

    /// Create CBW for INQUIRY.
    pub fn cbw(tag: u32, lun: u8, allocation_length: u8) -> (r: CommandBlockWrapper)
        ensures
            cbw_of(
                r,
                tag,
                allocation_length as u32,
                Direction::In,
                lun,
                six_command(0x12, allocation_length),
            ),
    {
        let cmd = Self::command(allocation_length);
        CommandBlockWrapper::new(tag, allocation_length as u32, Direction::In, lun, cmd.as_slice())
    }
}

/// SCSI TEST UNIT READY command (0x00).
/// Checks if device is ready for data transfer.
pub struct ScsiTestUnitReady;

impl ScsiTestUnitReady {
    /// Op code for TEST UNIT READY.
    pub const OPCODE: u8 = 0x00;

    /// Create TEST UNIT READY command bytes.
    pub fn command() -> (r: [u8; 6])
        ensures
            r@ == six_command(0x00, 0),
    {
        six(Self::OPCODE, 0)
    }

    /// Create CBW for TEST UNIT READY (no data phase).
    pub fn cbw(tag: u32, lun: u8) -> (r: CommandBlockWrapper)
        ensures
            cbw_of(r, tag, 0, Direction::Out, lun, six_command(0x00, 0)),
    {
        let cmd = Self::command();
        CommandBlockWrapper::new(tag, 0, Direction::Out, lun, cmd.as_slice())
    }
}

/// SCSI READ CAPACITY (10) command (0x25).
/// Gets block size and last block address.
pub struct ScsiReadCapacity;

impl ScsiReadCapacity {
    /// Op code for READ CAPACITY.
    pub const OPCODE: u8 = 0x25;

    /// Response size (8 bytes).
    pub const RESPONSE_SIZE: u32 = 8;

    /// Create READ CAPACITY command bytes.
    pub fn command() -> (r: [u8; 10])
        ensures
            r@ == plain10_command(0x25),
    {
        plain10(Self::OPCODE)
    }

    /// Create CBW for READ CAPACITY.
    pub fn cbw(tag: u32, lun: u8) -> (r: CommandBlockWrapper)
        ensures
            cbw_of(r, tag, 8, Direction::In, lun, plain10_command(0x25)),
    {
        let cmd = Self::command();
        CommandBlockWrapper::new(tag, Self::RESPONSE_SIZE, Direction::In, lun, cmd.as_slice())
    }

    /// Parse READ CAPACITY response.
    /// Returns (last_block_address, block_size), both big-endian in the
    /// response; a response shorter than 8 bytes gives `None`.
    pub fn parse_response(data: &[u8]) -> (r: Option<(u32, u32)>)
        ensures
            data@.len() < 8 ==> r is None,
            data@.len() >= 8 ==> r == Some((u32_be_at(data@, 0), u32_be_at(data@, 4))),
    {
        if data.len() < 8 {
            return None;
        }
        let last_block_address = read_u32_be(data, 0);
        let block_size = read_u32_be(data, 4);
        Some((last_block_address, block_size))
    }
}

/// SCSI READ(10) command (0x28).
/// Reads blocks from the device.
pub struct ScsiRead10;

impl ScsiRead10 {
    /// Op code for READ(10).
    pub const OPCODE: u8 = 0x28;

    /// Create READ(10) command bytes.
    pub fn command(lba: u32, transfer_blocks: u16) -> (r: [u8; 10])
        ensures
            r@ == rw10_command(0x28, lba, transfer_blocks),
    {
        rw10(Self::OPCODE, lba, transfer_blocks)
    }

    /// Create CBW for READ(10); the data phase carries
    /// `transfer_blocks * block_size` bytes.
    pub fn cbw(tag: u32, lun: u8, lba: u32, transfer_blocks: u16, block_size: u32) -> (r:
        CommandBlockWrapper)
        requires
            transfer_blocks * block_size <= u32::MAX,
        ensures
            cbw_of(
                r,
                tag,
                (transfer_blocks * block_size) as u32,
                Direction::In,
                lun,
                rw10_command(0x28, lba, transfer_blocks),
            ),
    {
        let transfer_length = transfer_blocks as u32 * block_size;
        let cmd = Self::command(lba, transfer_blocks);
        CommandBlockWrapper::new(tag, transfer_length, Direction::In, lun, cmd.as_slice())
    }
}

/// SCSI WRITE(10) command (0x2A).
/// Writes blocks to the device.
pub struct ScsiWrite10;

impl ScsiWrite10 {
    /// Op code for WRITE(10).
    pub const OPCODE: u8 = 0x2A;

    /// Create WRITE(10) command bytes.
    pub fn command(lba: u32, transfer_blocks: u16) -> (r: [u8; 10])
        ensures
            r@ == rw10_command(0x2A, lba, transfer_blocks),
    {
        rw10(Self::OPCODE, lba, transfer_blocks)
    }

    /// Create CBW for WRITE(10); the data phase carries
    /// `transfer_blocks * block_size` bytes.
    pub fn cbw(tag: u32, lun: u8, lba: u32, transfer_blocks: u16, block_size: u32) -> (r:
        CommandBlockWrapper)
        requires
            transfer_blocks * block_size <= u32::MAX,
        ensures
            cbw_of(
                r,
                tag,
                (transfer_blocks * block_size) as u32,
                Direction::Out,
                lun,
                rw10_command(0x2A, lba, transfer_blocks),
            ),
    {
        let transfer_length = transfer_blocks as u32 * block_size;
        let cmd = Self::command(lba, transfer_blocks);
        CommandBlockWrapper::new(tag, transfer_length, Direction::Out, lun, cmd.as_slice())
    }
}

/// SCSI REQUEST SENSE command (0x03).
/// Gets detailed error information after a failed command.
pub struct ScsiRequestSense;

impl ScsiRequestSense {
    /// Op code for REQUEST SENSE.
    pub const OPCODE: u8 = 0x03;

    /// Standard response size (18 bytes).
    pub const RESPONSE_SIZE: u8 = 18;

    /// Create REQUEST SENSE command bytes.
    pub fn command(allocation_length: u8) -> (r: [u8; 6])
        ensures
            r@ == six_command(0x03, allocation_length),
    {
        six(Self::OPCODE, allocation_length)
    }

    /// Create CBW for REQUEST SENSE.
    pub fn cbw(tag: u32, lun: u8) -> (r: CommandBlockWrapper)
        ensures
            cbw_of(r, tag, 18, Direction::In, lun, six_command(0x03, 18)),
    {
        let cmd = Self::command(Self::RESPONSE_SIZE);
        CommandBlockWrapper::new(
            tag,
            Self::RESPONSE_SIZE as u32,
            Direction::In,
            lun,
            cmd.as_slice(),
        )
    }
}

/// The fourth byte of START STOP UNIT: bit 0 starts the unit, bit 1 loads
/// or ejects the medium.
pub open spec fn start_stop_byte(start: bool, loej: bool) -> u8 {
    if start && loej {
        3u8
    } else if start {
        1u8
    } else if loej {
        2u8
    } else {
        0u8
    }
}

/// SCSI START STOP UNIT command (0x1B).
/// Used to eject the media or stop the motor.
pub struct ScsiStartStopUnit;

impl ScsiStartStopUnit {
    /// Op code for START STOP UNIT.
    pub const OPCODE: u8 = 0x1B;

    /// Create START STOP UNIT command bytes.
    /// `start`: start the unit if true, stop it if false.
    /// `loej`: load or eject the media.
    pub fn command(start: bool, loej: bool) -> (r: [u8; 6])
        ensures
            r@ == six_command(0x1B, start_stop_byte(start, loej)),
    {
        let mut byte4: u8 = 0;
        if start {
            byte4 = byte4 + 1;
        }
        if loej {
            byte4 = byte4 + 2;
        }
        six(Self::OPCODE, byte4)
    }

    /// Create CBW for START STOP UNIT.
    pub fn cbw(tag: u32, lun: u8, start: bool, loej: bool) -> (r: CommandBlockWrapper)
        ensures
            cbw_of(r, tag, 0, Direction::Out, lun, six_command(0x1B, start_stop_byte(start, loej))),
    {
        let cmd = Self::command(start, loej);
        CommandBlockWrapper::new(tag, 0, Direction::Out, lun, cmd.as_slice())
    }
}

/// SCSI SYNCHRONIZE CACHE (10) command (0x35).
/// Flushes the device's internal write cache to physical storage.
pub struct ScsiSynchronizeCache;

impl ScsiSynchronizeCache {
    /// Op code for SYNCHRONIZE CACHE (10).
    pub const OPCODE: u8 = 0x35;

    /// Create SYNCHRONIZE CACHE (10) command bytes.
    pub fn command() -> (r: [u8; 10])
        ensures
            r@ == plain10_command(0x35),
    {
        plain10(Self::OPCODE)
    }

    /// Create CBW for SYNCHRONIZE CACHE (10).
    pub fn cbw(tag: u32, lun: u8) -> (r: CommandBlockWrapper)
        ensures
            cbw_of(r, tag, 0, Direction::Out, lun, plain10_command(0x35)),
    {
        let cmd = Self::command();
        CommandBlockWrapper::new(tag, 0, Direction::Out, lun, cmd.as_slice())
    }
}

/// The LBA and block count of a READ(10) or WRITE(10) block decode back to
/// the values it was built from.
pub proof fn lemma_rw10_roundtrip(opcode: u8, lba: u32, transfer_blocks: u16)
    ensures
        rw10_command(opcode, lba, transfer_blocks).len() == 10,
        rw10_command(opcode, lba, transfer_blocks)[0] == opcode,
        u32_be_at(rw10_command(opcode, lba, transfer_blocks), 2) == lba,
        ((rw10_command(opcode, lba, transfer_blocks)[7] as u16) << 8u16) | (rw10_command(
            opcode,
            lba,
            transfer_blocks,
        )[8] as u16) == transfer_blocks,
{
    let c = rw10_command(opcode, lba, transfer_blocks);
    assert(c[2] == (lba >> 24u32) as u8 && c[3] == (lba >> 16u32) as u8 && c[4] == (lba >> 8u32) as u8
        && c[5] == lba as u8);
    assert(c[7] == (transfer_blocks >> 8u16) as u8 && c[8] == transfer_blocks as u8);
    assert(((((lba >> 24u32) as u8) as u32) << 24u32) | ((((lba >> 16u32) as u8) as u32) << 16u32) | ((((
    lba >> 8u32) as u8) as u32) << 8u32) | ((lba as u8) as u32) == lba) by (bit_vector);
    assert(((((transfer_blocks >> 8u16) as u8) as u16) << 8u16) | ((transfer_blocks as u8) as u16)
        == transfer_blocks) by (bit_vector);
}

} // verus!
