//! Flashing Linux ISO images onto a FAT32 volume; not implemented yet, so
//! every request is answered with an error.

use vstd::prelude::*;
use std::sync::Arc;
use std::sync::atomic::AtomicBool;
use crate::error::{Error, IoError, IoErrorKind};
use crate::text::string_of;

verus! {

/// How a Linux image is laid out on the stick.
pub struct LinuxFlashConfig {
    pub volume_label: String,
    pub persistence_size: Option<u64>,
}

impl Default for LinuxFlashConfig {
    /// Volume label "LINUX_USB", no persistence.
    fn default() -> (r: Self)
        ensures
            r.volume_label@ == "LINUX_USB"@,
            r.persistence_size is None,
    {
        LinuxFlashConfig { volume_label: string_of("LINUX_USB"), persistence_size: None }
    }
}

/// Flashes Linux images.
pub struct LinuxFlasher {
    cancelled: Arc<AtomicBool>,
}

impl LinuxFlasher {
    /// A flasher that watches the given cancellation flag.
    pub fn new(cancelled: Arc<AtomicBool>) -> (r: Self)
        ensures
            r.cancel_flag() == cancelled,
    {
        LinuxFlasher { cancelled }
    }

    /// The cancellation flag watched.
    pub closed spec fn cancel_flag(&self) -> Arc<AtomicBool> {
        self.cancelled
    }

    /// Flashing Linux images is not supported: always an I/O error saying
    /// so.
    pub fn flash<ISO, USB>(&mut self, iso: ISO, usb: USB) -> (r: Result<(), Error>)
        ensures
            r matches Err(Error::Io(x)) && x.kind == IoErrorKind::Unsupported && x.message@
                == "Linux ISO flashing not yet implemented"@,
    {
        Err(
            Error::Io(
                IoError::new(
                    IoErrorKind::Unsupported,
                    string_of("Linux ISO flashing not yet implemented"),
                ),
            ),
        )
    }
}

} // verus!
