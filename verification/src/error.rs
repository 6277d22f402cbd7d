//! Error type shared by every part of the flasher, with the numeric codes
//! reported across the native boundary.

use vstd::prelude::*;
use crate::text::{debug_str, decimal, push_decimal, push_text, str_debug, string_of};

verus! {

/// The kind of an I/O failure, as `std::io::ErrorKind` names it; a kind
/// not listed here is carried as `Other`.
#[derive(Debug, Clone, Copy, PartialEq, Eq, Structural)]
pub enum IoErrorKind {
    NotFound,
    PermissionDenied,
    ConnectionRefused,
    ConnectionReset,
    ConnectionAborted,
    NotConnected,
    AddrInUse,
    AddrNotAvailable,
    BrokenPipe,
    AlreadyExists,
    WouldBlock,
    InvalidInput,
    InvalidData,
    TimedOut,
    WriteZero,
    Interrupted,
    Unsupported,
    UnexpectedEof,
    OutOfMemory,
    Other,
}

/// An I/O failure: its kind and the text of the underlying error.
#[derive(Debug)]
pub struct IoError {
    pub kind: IoErrorKind,
    pub message: String,
}

impl IoError {
    /// An I/O failure of the given kind and text.
    pub fn new(kind: IoErrorKind, message: String) -> (r: IoError)
        ensures
            r.kind == kind,
            r.message == message,
    {
        IoError { kind, message }
    }
}

/// Errors that can occur during ISO flashing operations.
///
/// An I/O failure is carried as its kind and the text of the underlying
/// error.
#[derive(Debug)]
pub enum Error {
    /// The file is not a valid ISO 9660 image.
    InvalidIso(String),
    /// The ISO does not contain expected Windows installation files.
    NotWindowsIso(String),
    /// UDF filesystem parsing failed.
    UdfError(String),
    /// Failed to read directory structure.
    DirectoryReadError(String),
    /// File not found in ISO.
    FileNotFound(String),
    /// Device is too small for Windows installation.
    DeviceTooSmall { required: u64, available: u64 },
    /// Device is too large for FAT32.
    DeviceTooLarge(u64),
    /// Failed to create partition table.
    GptError(String),
    /// Failed to format FAT32 filesystem.
    Fat32FormatError(String),
    /// Cluster allocation failed.
    ClusterAllocationError(String),
    /// Invalid WIM file header.
    InvalidWimHeader(String),
    /// WIM splitting failed.
    WimSplitError(String),
    /// Standard I/O error, by its kind and message.
    Io(IoError),
    /// Failed to seek to position.
    SeekError { offset: u64, message: String },
    /// Read/write size mismatch.
    SizeMismatch { operation: &'static str, expected: usize, actual: usize },
    /// Operation was cancelled by user.
    Cancelled,
    /// Flash operation already in progress.
    AlreadyInProgress,
    /// Device is busy or locked.
    DeviceBusy(String),
    /// USB mass storage protocol error.
    UsbError(String),
}

/// The text of an error.
pub open spec fn error_text(e: Error) -> Seq<char> {
    match e {
        Error::InvalidIso(m) => "Invalid ISO 9660 format: "@ + m@,
        Error::NotWindowsIso(m) => "Not a Windows installation ISO: missing "@ + m@,
        Error::UdfError(m) => "UDF parsing error: "@ + m@,
        Error::DirectoryReadError(m) => "Failed to read directory: "@ + m@,
        Error::FileNotFound(m) => "File not found in ISO: "@ + m@,
        Error::DeviceTooSmall { required, available } => "Device too small: need at least "@
            + decimal(required as nat) + " bytes, have "@ + decimal(available as nat) + " bytes"@,
        Error::DeviceTooLarge(n) => "Device too large for FAT32: "@ + decimal(n as nat)
            + " bytes (max 2TB)"@,
        Error::GptError(m) => "Failed to create GPT: "@ + m@,
        Error::Fat32FormatError(m) => "FAT32 format error: "@ + m@,
        Error::ClusterAllocationError(m) => "Failed to allocate cluster: "@ + m@,
        Error::InvalidWimHeader(m) => "Invalid WIM header: "@ + m@,
        Error::WimSplitError(m) => "WIM split error: "@ + m@,
        Error::Io(e) => "I/O error: "@ + e.message@,
        Error::SeekError { offset, message } => "Seek error at offset "@ + decimal(offset as nat)
            + ": "@ + message@,
        Error::SizeMismatch { operation, expected, actual } => "Expected to "@ + operation@ + " "@
            + decimal(expected as nat) + " bytes, but got "@ + decimal(actual as nat),
        Error::Cancelled => "Operation cancelled"@,
        Error::AlreadyInProgress => "Flash operation already in progress"@,
        Error::DeviceBusy(m) => "Device is busy: "@ + m@,
        Error::UsbError(m) => "USB error: "@ + m@,
    }
}

/// `prefix` followed by `m`.
fn prefixed(prefix: &str, m: &str) -> (r: String)
    ensures
        r@ == prefix@ + m@,
{
    let mut s = string_of(prefix);
    push_text(&mut s, m);
    s
}

impl Error {
    /// The text of the error (see `error_text`).
    pub fn message(&self) -> (r: String)
        ensures
            r@ == error_text(*self),
    {
        match self {
            Error::InvalidIso(m) => prefixed("Invalid ISO 9660 format: ", m.as_str()),
            Error::NotWindowsIso(m) => prefixed("Not a Windows installation ISO: missing ", m.as_str()),
            Error::UdfError(m) => prefixed("UDF parsing error: ", m.as_str()),
            Error::DirectoryReadError(m) => prefixed("Failed to read directory: ", m.as_str()),
            Error::FileNotFound(m) => prefixed("File not found in ISO: ", m.as_str()),
            Error::DeviceTooSmall { required, available } => {
                let mut s = string_of("Device too small: need at least ");
                push_decimal(&mut s, *required);
                push_text(&mut s, " bytes, have ");
                push_decimal(&mut s, *available);
                push_text(&mut s, " bytes");
                s
            },
            Error::DeviceTooLarge(n) => {
                let mut s = string_of("Device too large for FAT32: ");
                push_decimal(&mut s, *n);
                push_text(&mut s, " bytes (max 2TB)");
                s
            },
            Error::GptError(m) => prefixed("Failed to create GPT: ", m.as_str()),
            Error::Fat32FormatError(m) => prefixed("FAT32 format error: ", m.as_str()),
            Error::ClusterAllocationError(m) => prefixed("Failed to allocate cluster: ", m.as_str()),
            Error::InvalidWimHeader(m) => prefixed("Invalid WIM header: ", m.as_str()),
            Error::WimSplitError(m) => prefixed("WIM split error: ", m.as_str()),
            Error::Io(e) => prefixed("I/O error: ", e.message.as_str()),
            Error::SeekError { offset, message } => {
                let mut s = string_of("Seek error at offset ");
                push_decimal(&mut s, *offset);
                push_text(&mut s, ": ");
                push_text(&mut s, message.as_str());
                s
            },
            Error::SizeMismatch { operation, expected, actual } => {
                let mut s = string_of("Expected to ");
                push_text(&mut s, operation);
                push_text(&mut s, " ");
                push_decimal(&mut s, *expected as u64);
                push_text(&mut s, " bytes, but got ");
                push_decimal(&mut s, *actual as u64);
                s
            },
            Error::Cancelled => string_of("Operation cancelled"),
            Error::AlreadyInProgress => string_of("Flash operation already in progress"),
            Error::DeviceBusy(m) => prefixed("Device is busy: ", m.as_str()),
            Error::UsbError(m) => prefixed("USB error: ", m.as_str()),
        }
    }
}

/// The name of an I/O error kind.
pub open spec fn io_kind_name(k: IoErrorKind) -> Seq<char> {
    match k {
        IoErrorKind::NotFound => "NotFound"@,
        IoErrorKind::PermissionDenied => "PermissionDenied"@,
        IoErrorKind::ConnectionRefused => "ConnectionRefused"@,
        IoErrorKind::ConnectionReset => "ConnectionReset"@,
        IoErrorKind::ConnectionAborted => "ConnectionAborted"@,
        IoErrorKind::NotConnected => "NotConnected"@,
        IoErrorKind::AddrInUse => "AddrInUse"@,
        IoErrorKind::AddrNotAvailable => "AddrNotAvailable"@,
        IoErrorKind::BrokenPipe => "BrokenPipe"@,
        IoErrorKind::AlreadyExists => "AlreadyExists"@,
        IoErrorKind::WouldBlock => "WouldBlock"@,
        IoErrorKind::InvalidInput => "InvalidInput"@,
        IoErrorKind::InvalidData => "InvalidData"@,
        IoErrorKind::TimedOut => "TimedOut"@,
        IoErrorKind::WriteZero => "WriteZero"@,
        IoErrorKind::Interrupted => "Interrupted"@,
        IoErrorKind::Unsupported => "Unsupported"@,
        IoErrorKind::UnexpectedEof => "UnexpectedEof"@,
        IoErrorKind::OutOfMemory => "OutOfMemory"@,
        IoErrorKind::Other => "Other"@,
    }
}

/// `name(field)`.
pub open spec fn tuple_debug(name: Seq<char>, field: Seq<char>) -> Seq<char> {
    name + "("@ + field + ")"@
}

/// The debug text of an error, as Rust writes a value of this shape: the
/// variant's name, then its fields in round brackets or, when they are
/// named, as `{ name: value, .. }`; strings in the form `str_debug` gives
/// them, numbers in decimal.
pub open spec fn error_debug_text(e: Error) -> Seq<char> {
    match e {
        Error::InvalidIso(m) => tuple_debug("InvalidIso"@, str_debug(m@)),
        Error::NotWindowsIso(m) => tuple_debug("NotWindowsIso"@, str_debug(m@)),
        Error::UdfError(m) => tuple_debug("UdfError"@, str_debug(m@)),
        Error::DirectoryReadError(m) => tuple_debug("DirectoryReadError"@, str_debug(m@)),
        Error::FileNotFound(m) => tuple_debug("FileNotFound"@, str_debug(m@)),
        Error::DeviceTooSmall { required, available } => "DeviceTooSmall { required: "@ + decimal(
            required as nat,
        ) + ", available: "@ + decimal(available as nat) + " }"@,
        Error::DeviceTooLarge(n) => tuple_debug("DeviceTooLarge"@, decimal(n as nat)),
        Error::GptError(m) => tuple_debug("GptError"@, str_debug(m@)),
        Error::Fat32FormatError(m) => tuple_debug("Fat32FormatError"@, str_debug(m@)),
        Error::ClusterAllocationError(m) => tuple_debug("ClusterAllocationError"@, str_debug(m@)),
        Error::InvalidWimHeader(m) => tuple_debug("InvalidWimHeader"@, str_debug(m@)),
        Error::WimSplitError(m) => tuple_debug("WimSplitError"@, str_debug(m@)),
        Error::Io(x) => tuple_debug(
            "Io"@,
            "IoError { kind: "@ + io_kind_name(x.kind) + ", message: "@ + str_debug(x.message@)
                + " }"@,
        ),
        Error::SeekError { offset, message } => "SeekError { offset: "@ + decimal(offset as nat)
            + ", message: "@ + str_debug(message@) + " }"@,
        Error::SizeMismatch { operation, expected, actual } => "SizeMismatch { operation: "@
            + str_debug(operation@) + ", expected: "@ + decimal(expected as nat) + ", actual: "@
            + decimal(actual as nat) + " }"@,
        Error::Cancelled => "Cancelled"@,
        Error::AlreadyInProgress => "AlreadyInProgress"@,
        Error::DeviceBusy(m) => tuple_debug("DeviceBusy"@, str_debug(m@)),
        Error::UsbError(m) => tuple_debug("UsbError"@, str_debug(m@)),
    }
}

impl IoErrorKind {
    /// The name of the kind (see `io_kind_name`).
    pub fn name(&self) -> (r: &'static str)
        ensures
            r@ == io_kind_name(*self),
    {
        match self {
            IoErrorKind::NotFound => "NotFound",
            IoErrorKind::PermissionDenied => "PermissionDenied",
            IoErrorKind::ConnectionRefused => "ConnectionRefused",
            IoErrorKind::ConnectionReset => "ConnectionReset",
            IoErrorKind::ConnectionAborted => "ConnectionAborted",
            IoErrorKind::NotConnected => "NotConnected",
            IoErrorKind::AddrInUse => "AddrInUse",
            IoErrorKind::AddrNotAvailable => "AddrNotAvailable",
            IoErrorKind::BrokenPipe => "BrokenPipe",
            IoErrorKind::AlreadyExists => "AlreadyExists",
            IoErrorKind::WouldBlock => "WouldBlock",
            IoErrorKind::InvalidInput => "InvalidInput",
            IoErrorKind::InvalidData => "InvalidData",
            IoErrorKind::TimedOut => "TimedOut",
            IoErrorKind::WriteZero => "WriteZero",
            IoErrorKind::Interrupted => "Interrupted",
            IoErrorKind::Unsupported => "Unsupported",
            IoErrorKind::UnexpectedEof => "UnexpectedEof",
            IoErrorKind::OutOfMemory => "OutOfMemory",
            IoErrorKind::Other => "Other",
        }
    }
}

/// `name(` followed by the debug text of `m` and `)`.
fn tuple_of_str(name: &str, m: &str) -> (r: String)
    ensures
        r@ == tuple_debug(name@, str_debug(m@)),
{
    let mut s = string_of(name);
    push_text(&mut s, "(");
    let d = debug_str(m);
    push_text(&mut s, d.as_str());
    push_text(&mut s, ")");
    s
}

impl Error {
    /// The debug text of the error (see `error_debug_text`).
    #[verifier::spinoff_prover]
    #[verifier::rlimit(30)]
    pub fn debug_text(&self) -> (r: String)
        ensures
            r@ == error_debug_text(*self),
    {
        match self {
            Error::InvalidIso(m) => tuple_of_str("InvalidIso", m.as_str()),
            Error::NotWindowsIso(m) => tuple_of_str("NotWindowsIso", m.as_str()),
            Error::UdfError(m) => tuple_of_str("UdfError", m.as_str()),
            Error::DirectoryReadError(m) => tuple_of_str("DirectoryReadError", m.as_str()),
            Error::FileNotFound(m) => tuple_of_str("FileNotFound", m.as_str()),
            Error::DeviceTooSmall { required, available } => {
                let mut s = string_of("DeviceTooSmall { required: ");
                push_decimal(&mut s, *required);
                push_text(&mut s, ", available: ");
                push_decimal(&mut s, *available);
                push_text(&mut s, " }");
                s
            },
            Error::DeviceTooLarge(n) => {
                let mut s = string_of("DeviceTooLarge");
                push_text(&mut s, "(");
                push_decimal(&mut s, *n);
                push_text(&mut s, ")");
                s
            },
            Error::GptError(m) => tuple_of_str("GptError", m.as_str()),
            Error::Fat32FormatError(m) => tuple_of_str("Fat32FormatError", m.as_str()),
            Error::ClusterAllocationError(m) => tuple_of_str("ClusterAllocationError", m.as_str()),
            Error::InvalidWimHeader(m) => tuple_of_str("InvalidWimHeader", m.as_str()),
            Error::WimSplitError(m) => tuple_of_str("WimSplitError", m.as_str()),
            Error::Io(x) => {
                let mut s = string_of("Io");
                push_text(&mut s, "(");
                push_text(&mut s, "IoError { kind: ");
                push_text(&mut s, x.kind.name());
                push_text(&mut s, ", message: ");
                let d = debug_str(x.message.as_str());
                push_text(&mut s, d.as_str());
                push_text(&mut s, " }");
                push_text(&mut s, ")");
                s
            },
            Error::SeekError { offset, message } => {
                let mut s = string_of("SeekError { offset: ");
                push_decimal(&mut s, *offset);
                push_text(&mut s, ", message: ");
                let d = debug_str(message.as_str());
                push_text(&mut s, d.as_str());
                push_text(&mut s, " }");
                s
            },
            Error::SizeMismatch { operation, expected, actual } => {
                let mut s = string_of("SizeMismatch { operation: ");
                let d = debug_str(operation);
                push_text(&mut s, d.as_str());
                push_text(&mut s, ", expected: ");
                push_decimal(&mut s, *expected as u64);
                push_text(&mut s, ", actual: ");
                push_decimal(&mut s, *actual as u64);
                push_text(&mut s, " }");
                s
            },
            Error::Cancelled => string_of("Cancelled"),
            Error::AlreadyInProgress => string_of("AlreadyInProgress"),
            Error::DeviceBusy(m) => tuple_of_str("DeviceBusy", m.as_str()),
            Error::UsbError(m) => tuple_of_str("UsbError", m.as_str()),
        }
    }
}

/// Result type alias using the library's Error type.
pub type Result<T> = core::result::Result<T, Error>;

/// The numeric code of each error: ISO errors in -1xx, FAT32 in -2xx, WIM in
/// -3xx, I/O in -4xx, operation errors in -5xx, USB errors in -6xx.
pub open spec fn error_code(e: Error) -> int {
    match e {
        Error::InvalidIso(_) => -100,
        Error::NotWindowsIso(_) => -101,
        Error::UdfError(_) => -102,
        Error::DirectoryReadError(_) => -103,
        Error::FileNotFound(_) => -104,
        Error::DeviceTooSmall { .. } => -200,
        Error::DeviceTooLarge(_) => -201,
        Error::GptError(_) => -202,
        Error::Fat32FormatError(_) => -203,
        Error::ClusterAllocationError(_) => -204,
        Error::InvalidWimHeader(_) => -300,
        Error::WimSplitError(_) => -301,
        Error::Io(_) => -400,
        Error::SeekError { .. } => -401,
        Error::SizeMismatch { .. } => -402,
        Error::Cancelled => -500,
        Error::AlreadyInProgress => -501,
        Error::DeviceBusy(_) => -502,
        Error::UsbError(_) => -600,
    }
}

impl Error {
    /// Returns an error code suitable for JNI.
    pub fn code(&self) -> (r: i32)
        ensures
            r == error_code(*self),
    {
        match self {
            Error::InvalidIso(_) => -100,
            Error::NotWindowsIso(_) => -101,
            Error::UdfError(_) => -102,
            Error::DirectoryReadError(_) => -103,
            Error::FileNotFound(_) => -104,
            Error::DeviceTooSmall { .. } => -200,
            Error::DeviceTooLarge(_) => -201,
            Error::GptError(_) => -202,
            Error::Fat32FormatError(_) => -203,
            Error::ClusterAllocationError(_) => -204,
            Error::InvalidWimHeader(_) => -300,
            Error::WimSplitError(_) => -301,
            Error::Io(_) => -400,
            Error::SeekError { .. } => -401,
            Error::SizeMismatch { .. } => -402,
            Error::Cancelled => -500,
            Error::AlreadyInProgress => -501,
            Error::DeviceBusy(_) => -502,
            Error::UsbError(_) => -600,
        }
    }
}

/// Every error code is negative and names its family by its hundreds: the
/// code lies in -699..=-100.
pub proof fn lemma_error_codes_negative(e: Error)
    ensures
        -699 <= error_code(e) <= -100,
{
}

} // verus!
