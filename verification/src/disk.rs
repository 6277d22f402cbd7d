//! Writes to a block device, described as data: the layouts of the crate
//! produce these, and the caller performs them in order.

use vstd::prelude::*;

verus! {

/// One write to the device.
#[derive(Debug)]
pub enum DiskWrite {
    /// Write these bytes at this byte offset.
    Bytes { offset: u64, data: Vec<u8> },
    /// Write this many zero bytes at this byte offset.
    Zeros { offset: u64, len: u64 },
}

/// What a write puts on the device.
pub enum WriteView {
    Bytes(u64, Seq<u8>),
    Zeros(u64, u64),
}

impl View for DiskWrite {
    type V = WriteView;

    open spec fn view(&self) -> WriteView {
        match self {
            DiskWrite::Bytes { offset, data } => WriteView::Bytes(*offset, data@),
            DiskWrite::Zeros { offset, len } => WriteView::Zeros(*offset, *len),
        }
    }
}

/// The effects of a list of writes, in order.
pub open spec fn writes_view(w: Seq<DiskWrite>) -> Seq<WriteView> {
    w.map_values(|x: DiskWrite| x@)
}


/// Types that can report their physical I/O progress.
pub trait PhysicalProgress {
    /// The number of bytes actually written to the physical device.
    fn physical_position(&self) -> u64;
}

} // verus!
