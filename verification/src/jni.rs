//! The face the flasher shows to the Android application: its error type,
//! its phases and its progress callback.

use vstd::prelude::*;
use std::sync::Arc;
use std::sync::atomic::AtomicBool;
use crate::error::{Error, error_debug_text};
use crate::text::{push_text, string_of};
use crate::flash::FlashPhase as CorePhase;
use crate::fat_writer::share_handle;

verus! {

/// Errors reported to the application.
#[derive(Debug)]
pub enum FlasherError {
    IoError { msg: String },
    UsbError { msg: String },
    Cancelled,
    InvalidIso { msg: String },
    Unknown { msg: String },
}

/// The text of an error reported to the application.
pub open spec fn flasher_error_text(e: FlasherError) -> Seq<char> {
    match e {
        FlasherError::IoError { msg } => "IO Error: "@ + msg@,
        FlasherError::UsbError { msg } => "USB Error: "@ + msg@,
        FlasherError::Cancelled => "Cancelled"@,
        FlasherError::InvalidIso { msg } => "Invalid ISO: "@ + msg@,
        FlasherError::Unknown { msg } => "Unknown error: "@ + msg@,
    }
}

impl FlasherError {
    /// The text of the error (see `flasher_error_text`).
    pub fn message(&self) -> (r: String)
        ensures
            r@ == flasher_error_text(*self),
    {
        let (prefix, msg) = match self {
            FlasherError::IoError { msg } => ("IO Error: ", msg.as_str()),
            FlasherError::UsbError { msg } => ("USB Error: ", msg.as_str()),
            FlasherError::Cancelled => ("Cancelled", ""),
            FlasherError::InvalidIso { msg } => ("Invalid ISO: ", msg.as_str()),
            FlasherError::Unknown { msg } => ("Unknown error: ", msg.as_str()),
        };
        proof {
            reveal_strlit("");
            reveal_strlit("Cancelled");
        }
        let mut s = string_of(prefix);
        push_text(&mut s, msg);
        s
    }

    /// The error reported for a flasher error: I/O and USB errors keep their
    /// text, cancellation stays cancellation, any other error is reported
    /// as unknown with its debug text.
    pub fn from_error(e: Error) -> (r: FlasherError)
        ensures
            e matches Error::Io(x) ==> (r matches FlasherError::IoError { msg } && msg@
                == x.message@),
            e matches Error::UsbError(m) ==> (r matches FlasherError::UsbError { msg } && msg@
                == m@),
            e is Cancelled ==> r is Cancelled,
            !(e is Io || e is UsbError || e is Cancelled) ==> (r matches FlasherError::Unknown { msg }
                && msg@ == error_debug_text(e)),
    {
        match e {
            Error::Io(x) => FlasherError::IoError { msg: x.message },
            Error::UsbError(m) => FlasherError::UsbError { msg: m },
            Error::Cancelled => FlasherError::Cancelled,
            other => FlasherError::Unknown { msg: other.debug_text() },
        }
    }
}

/// The phases as reported to the application.
#[derive(Debug, Clone, Copy, PartialEq, Eq, Structural)]
pub enum FlashPhase {
    Validating,
    Formatting,
    Flashing,
    Verifying,
    Finalizing,
}

impl FlashPhase {
    /// The reported phase of a pipeline phase: the same phase.
    pub fn from_core(p: CorePhase) -> (r: FlashPhase)
        ensures
            p is Validating <==> r is Validating,
            p is Formatting <==> r is Formatting,
            p is Flashing <==> r is Flashing,
            p is Verifying <==> r is Verifying,
            p is Finalizing <==> r is Finalizing,
    {
        match p {
            CorePhase::Validating => FlashPhase::Validating,
            CorePhase::Formatting => FlashPhase::Formatting,
            CorePhase::Flashing => FlashPhase::Flashing,
            CorePhase::Verifying => FlashPhase::Verifying,
            CorePhase::Finalizing => FlashPhase::Finalizing,
        }
    }
}

/// Progress reports to the application, which implements this.
pub trait FlashCallback {
    fn on_progress(&self, phase: FlashPhase, current: u64, total: u64);
}

/// The flasher the application holds: its cancellation flag.
pub struct UsbFlasher {
    cancel_token: Arc<AtomicBool>,
}

impl UsbFlasher {
    /// A flasher with a lowered cancellation flag.
    pub fn new() -> (r: Arc<Self>) {
        Arc::new(UsbFlasher { cancel_token: Arc::new(AtomicBool::new(false)) })
    }

    /// The cancellation flag.
    pub closed spec fn token(&self) -> Arc<AtomicBool> {
        self.cancel_token
    }

    /// A handle on the cancellation flag, for the pipeline to watch.
    pub fn cancel_handle(&self) -> (r: Arc<AtomicBool>)
        ensures
            r == self.token(),
    {
        share_handle(&self.cancel_token)
    }

    /// Requests cancellation: raises the flag.
    pub fn cancel(&self) {
        self.cancel_token.store(true, std::sync::atomic::Ordering::SeqCst);
    }

    /// Lowers the flag before a new flash.
    pub fn reset(&self) {
        self.cancel_token.store(false, std::sync::atomic::Ordering::SeqCst);
    }
}

} // verus!
