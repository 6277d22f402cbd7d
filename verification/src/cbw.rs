//! Command Block Wrapper (CBW) for USB Mass Storage Bulk-Only Transport.
//!
//! The CBW is a 31-byte structure used to wrap SCSI commands for transmission
//! over USB bulk endpoints.

use vstd::prelude::*;
use crate::bytes::{le32, u32_le_at, push_le32, push_all, lemma_le32_roundtrip, lemma_u32_le_at_window};

verus! {

/// CBW signature: "USBC" in little-endian (0x43425355).
pub const CBW_SIGNATURE: u32 = 0x43425355;

/// CBW size in bytes.
pub const CBW_SIZE: usize = 31;

/// Direction flags for CBW.
#[derive(Debug, Clone, Copy, PartialEq, Eq, Structural)]
pub enum Direction {
    /// Data transfer from host to device (flag byte 0x00).
    Out,
    /// Data transfer from device to host (flag byte 0x80).
    In,
}

/// The flag byte that a direction is sent as.
pub open spec fn direction_flag(d: Direction) -> u8 {
    match d {
        Direction::Out => 0x00,
        Direction::In => 0x80,
    }
}

impl Direction {
    /// The flag byte that this direction is sent as.
    pub fn flag(self) -> (r: u8)
        ensures
            r == direction_flag(self),
    {
        match self {
            Direction::Out => 0x00,
            Direction::In => 0x80,
        }
    }
}

/// Command Block Wrapper structure.
#[derive(Debug, Clone)]
pub struct CommandBlockWrapper {
    /// Signature (must be CBW_SIGNATURE).
    pub signature: u32,
    /// Tag to associate with CSW response.
    pub tag: u32,
    /// Number of bytes to transfer in data phase.
    pub data_transfer_length: u32,
    /// Transfer direction flags.
    pub flags: u8,
    /// Logical Unit Number (usually 0).
    pub lun: u8,
    /// Length of the command block (1-16 bytes).
    pub cb_length: u8,
    /// SCSI command block (16 bytes, padded with zeros).
    pub command_block: [u8; 16],
}

/// The 16-byte command block holding the first 16 bytes of `command`,
/// padded with zeros.
pub open spec fn padded_command(command: Seq<u8>) -> Seq<u8> {
    Seq::new(16, |i: int| if i < command.len() { command[i] } else { 0u8 })
}

/// The length recorded for a command: its byte count, at most 16.
pub open spec fn command_len(command: Seq<u8>) -> nat {
    if command.len() < 16 {
        command.len()
    } else {
        16
    }
}

/// The wrapper that `CommandBlockWrapper::new` builds from its arguments.
pub open spec fn cbw_of(
    c: CommandBlockWrapper,
    tag: u32,
    data_transfer_length: u32,
    direction: Direction,
    lun: u8,
    command: Seq<u8>,
) -> bool {
    &&& c.signature == CBW_SIGNATURE
    &&& c.tag == tag
    &&& c.data_transfer_length == data_transfer_length
    &&& c.flags == direction_flag(direction)
    &&& c.lun == lun
    &&& c.cb_length == command_len(command)
    &&& c.command_block@ == padded_command(command)
}

/// The 31 bytes a wrapper is sent as.
pub open spec fn cbw_bytes(c: CommandBlockWrapper) -> Seq<u8> {
    le32(c.signature) + le32(c.tag) + le32(c.data_transfer_length) + seq![
        c.flags,
        c.lun,
        c.cb_length,
    ] + c.command_block@
}

impl CommandBlockWrapper {
    /// Create a new CBW with the given parameters.
    pub fn new(tag: u32, data_transfer_length: u32, direction: Direction, lun: u8, command: &[u8]) -> (r:
        Self)
        ensures
            cbw_of(r, tag, data_transfer_length, direction, lun, command@),
    {
        let mut command_block = [0u8; 16];
        let len: usize = if command.len() < 16 {
            command.len()
        } else {
            16
        };
        let mut i: usize = 0;
        while i < 16
            invariant
                i <= 16,
                len == command_len(command@),
                forall|j: int|
                    0 <= j < i ==> command_block@[j] == (if j < command@.len() {
                        command@[j]
                    } else {
                        0u8
                    }),
            decreases 16 - i,
        {
            if i < len {
                command_block[i] = command[i];
            } else {
                command_block[i] = 0;
            }
            i = i + 1;
        }
        assert(command_block@ =~= padded_command(command@));
        CommandBlockWrapper {
            signature: CBW_SIGNATURE,
            tag,
            data_transfer_length,
            flags: direction.flag(),
            lun,
            cb_length: len as u8,
            command_block,
        }
    }

    /// Serialize CBW to a 31-byte buffer.
    pub fn serialize(&self) -> (r: Vec<u8>)
        ensures
            r@ == cbw_bytes(*self),
            r@.len() == CBW_SIZE,
    {
        let mut buffer: Vec<u8> = Vec::new();
        push_le32(&mut buffer, self.signature);
        push_le32(&mut buffer, self.tag);
        push_le32(&mut buffer, self.data_transfer_length);
        buffer.push(self.flags);
        buffer.push(self.lun);
        buffer.push(self.cb_length);
        push_all(&mut buffer, self.command_block.as_slice());
        assert(buffer@ =~= cbw_bytes(*self));
        buffer
    }
}

/// Reading the fields back out of a serialized wrapper gives the wrapper:
/// the signature, tag and transfer length at bytes 0, 4 and 8, the flags,
/// LUN and command length at 12, 13 and 14, and the command block after.
pub proof fn lemma_cbw_fields_roundtrip(c: CommandBlockWrapper)
    ensures
        u32_le_at(cbw_bytes(c), 0) == c.signature,
        u32_le_at(cbw_bytes(c), 4) == c.tag,
        u32_le_at(cbw_bytes(c), 8) == c.data_transfer_length,
        cbw_bytes(c)[12] == c.flags,
        cbw_bytes(c)[13] == c.lun,
        cbw_bytes(c)[14] == c.cb_length,
        cbw_bytes(c).subrange(15, 31) == c.command_block@,
{
    let b = cbw_bytes(c);
    lemma_le32_roundtrip(c.signature);
    lemma_le32_roundtrip(c.tag);
    lemma_le32_roundtrip(c.data_transfer_length);
    assert(b.subrange(0, 4) =~= le32(c.signature));
    assert(b.subrange(4, 8) =~= le32(c.tag));
    assert(b.subrange(8, 12) =~= le32(c.data_transfer_length));
    lemma_u32_le_at_window(b, le32(c.signature), 0);
    lemma_u32_le_at_window(b, le32(c.tag), 4);
    lemma_u32_le_at_window(b, le32(c.data_transfer_length), 8);
    assert(b.subrange(15, 31) =~= c.command_block@);
}

} // verus!
