//! Command Status Wrapper (CSW) for USB Mass Storage Bulk-Only Transport.
//!
//! The CSW is a 13-byte structure returned by the device after processing
//! a CBW command.

use vstd::prelude::*;
use crate::bytes::{u32_le_at, read_u32_le};
use crate::error::{Error, Result};
use vstd::string::StringExecFns;
use crate::text::{decimal, hex_fixed, push_decimal, push_hex_fixed, string_of};

verus! {

/// CSW signature: "USBS" in little-endian (0x53425355).
pub const CSW_SIGNATURE: u32 = 0x53425355;

/// CSW size in bytes.
pub const CSW_SIZE: usize = 13;

/// CSW status codes.
#[derive(Debug, Clone, Copy, PartialEq, Eq, Structural)]
pub enum CswStatus {
    /// Command passed (good status, byte 0x00).
    Passed,
    /// Command failed (byte 0x01).
    Failed,
    /// Phase error, requires reset (byte 0x02).
    PhaseError,
}

/// The status that a status byte stands for, if any.
pub open spec fn status_of_byte(value: u8) -> Option<CswStatus> {
    if value == 0 {
        Some(CswStatus::Passed)
    } else if value == 1 {
        Some(CswStatus::Failed)
    } else if value == 2 {
        Some(CswStatus::PhaseError)
    } else {
        None
    }
}

impl CswStatus {
    /// Decodes a status byte; any byte other than 0, 1 and 2 is an error.
    pub fn try_from(value: u8) -> (r: Result<Self>)
        ensures
            status_of_byte(value) matches Some(st) ==> (r matches Ok(s) && s == st),
            status_of_byte(value) is None ==> (r matches Err(Error::UsbError(m)) && m@
                == "Invalid CSW status: "@ + decimal(value as nat)),
    {
        if value == 0 {
            Ok(CswStatus::Passed)
        } else if value == 1 {
            Ok(CswStatus::Failed)
        } else if value == 2 {
            Ok(CswStatus::PhaseError)
        } else {
            let mut m = string_of("Invalid CSW status: ");
            push_decimal(&mut m, value as u64);
            Err(Error::UsbError(m))
        }
    }
}

/// Command Status Wrapper structure.
#[derive(Debug, Clone)]
pub struct CommandStatusWrapper {
    /// Signature (must be CSW_SIGNATURE).
    pub signature: u32,
    /// Tag from corresponding CBW.
    pub tag: u32,
    /// Number of bytes not transferred.
    pub data_residue: u32,
    /// Command status.
    pub status: CswStatus,
}

/// The buffer holds a well-formed status wrapper in its first 13 bytes.
pub open spec fn csw_well_formed(b: Seq<u8>) -> bool {
    &&& b.len() >= CSW_SIZE
    &&& u32_le_at(b, 0) == CSW_SIGNATURE
    &&& status_of_byte(b[12]) is Some
}

/// The message a malformed buffer is refused with: too short, a wrong
/// signature, or an unknown status byte.
pub open spec fn csw_parse_error(b: Seq<u8>) -> Seq<char> {
    if b.len() < CSW_SIZE {
        "CSW buffer too small: "@ + decimal(b.len()) + " < 13"@
    } else if u32_le_at(b, 0) != CSW_SIGNATURE {
        "Invalid CSW signature: 0x"@ + hex_fixed(u32_le_at(b, 0) as nat, 8)
    } else {
        "Invalid CSW status: "@ + decimal(b[12] as nat)
    }
}

/// The wrapper that a well-formed buffer holds.
pub open spec fn csw_of(b: Seq<u8>) -> CommandStatusWrapper {
    CommandStatusWrapper {
        signature: u32_le_at(b, 0),
        tag: u32_le_at(b, 4),
        data_residue: u32_le_at(b, 8),
        status: status_of_byte(b[12]).unwrap(),
    }
}

impl CommandStatusWrapper {
    /// Parse CSW from a 13-byte buffer.
    pub fn parse(buffer: &[u8]) -> (r: Result<Self>)
        ensures
            csw_well_formed(buffer@) ==> (r matches Ok(c) && c == csw_of(buffer@)),
            buffer@.len() < CSW_SIZE ==> (r matches Err(Error::UsbError(m)) && m@
                == "CSW buffer too small: "@ + decimal(buffer@.len()) + " < 13"@),
            buffer@.len() >= CSW_SIZE && u32_le_at(buffer@, 0) != CSW_SIGNATURE ==> (r matches Err(
                Error::UsbError(m),
            ) && m@ == "Invalid CSW signature: 0x"@ + hex_fixed(u32_le_at(buffer@, 0) as nat, 8)),
            buffer@.len() >= CSW_SIZE && u32_le_at(buffer@, 0) == CSW_SIGNATURE && status_of_byte(
                buffer@[12],
            ) is None ==> (r matches Err(Error::UsbError(m)) && m@ == "Invalid CSW status: "@
                + decimal(buffer@[12] as nat)),
            !csw_well_formed(buffer@) ==> (r matches Err(Error::UsbError(m)) && m@
                == csw_parse_error(buffer@)),
    {
        if buffer.len() < CSW_SIZE {
            let mut m = string_of("CSW buffer too small: ");
            push_decimal(&mut m, buffer.len() as u64);
            m.append(" < 13");
            return Err(Error::UsbError(m));
        }
        let signature = read_u32_le(buffer, 0);
        if signature != CSW_SIGNATURE {
            let mut m = string_of("Invalid CSW signature: 0x");
            push_hex_fixed(&mut m, signature as u64, 8);
            return Err(Error::UsbError(m));
        }
        let tag = read_u32_le(buffer, 4);
        let data_residue = read_u32_le(buffer, 8);
        let status = match CswStatus::try_from(buffer[12]) {
            Ok(s) => s,
            Err(e) => return Err(e),
        };
        Ok(CommandStatusWrapper { signature, tag, data_residue, status })
    }

    /// Check if the command was successful.
    pub fn is_success(&self) -> (r: bool)
        ensures
            r == (self.status == CswStatus::Passed),
    {
        self.status == CswStatus::Passed
    }
}

} // verus!
