//! Adaptive bulk-transfer engine of the native USB backend.
//!
//! A bulk transfer is sent as a series of synchronous chunks. The chunk size
//! follows AIMD: it halves on ENOMEM (never below 16KB), and after 200 clean
//! calls it doubles again, but never above 256KB and never above half of the
//! last size that failed with ENOMEM. The kernel calls themselves are made by
//! the caller; this module decides what to submit next and how the chunk size
//! moves with each outcome.

use vstd::prelude::*;
use crate::config::{INITIAL_URB_CHUNK_SIZE, MIN_URB_CHUNK_SIZE, AIMD_RECOVERY_CALLS};

verus! {

/// Default timeout for bulk transfers in milliseconds.
pub const DEFAULT_TIMEOUT_MS: u32 = 5000;

/// `USBDEVFS_CLEAR_HALT`: clear a stalled endpoint.
pub const USBDEVFS_CLEAR_HALT: u64 = 0x80045515;

/// `USBDEVFS_BULK`, whose number encodes the size of the transfer
/// structure: 24 bytes with 64-bit pointers, 16 with 32-bit ones.
pub fn ioctl_bulk() -> (r: u64)
    ensures
        usize::BITS == 64 ==> r == 0xC0185502,
        usize::BITS != 64 ==> r == 0x80085502,
{
    if usize::BITS == 64 {
        0xC0185502
    } else {
        0x80085502
    }
}

/// The chunk size of one direction and the last size that failed with
/// ENOMEM.
#[derive(Debug, Clone, Copy)]
pub struct AimdState {
    pub chunk_size: usize,
    pub enomem_floor: usize,
}

/// The chunk size stays between 16KB and 256KB, and at most half of the
/// last failing size unless it sits at the 16KB minimum.
pub open spec fn aimd_wf(s: AimdState) -> bool {
    &&& MIN_URB_CHUNK_SIZE <= s.chunk_size <= INITIAL_URB_CHUNK_SIZE
    &&& (s.chunk_size <= s.enomem_floor / 2 || s.chunk_size == MIN_URB_CHUNK_SIZE)
}

/// The starting state: 256KB chunks, and a floor of twice that so that the
/// first recovery is unconstrained.
pub open spec fn aimd_initial() -> AimdState {
    AimdState { chunk_size: INITIAL_URB_CHUNK_SIZE, enomem_floor: (INITIAL_URB_CHUNK_SIZE * 2) as usize }
}

/// The size a chunk shrinks to after ENOMEM: half, but not below 16KB.
pub open spec fn decreased_chunk(c: usize) -> usize {
    if c / 2 > MIN_URB_CHUNK_SIZE {
        (c / 2) as usize
    } else {
        MIN_URB_CHUNK_SIZE
    }
}

/// The size a chunk may grow to after a run of clean calls: double, capped
/// by half the last failing size and by 256KB.
pub open spec fn increased_chunk(c: usize, floor: usize) -> int {
    let doubled = c * 2;
    let cap = floor / 2;
    let a = if doubled < cap {
        doubled
    } else {
        cap as int
    };
    if a < INITIAL_URB_CHUNK_SIZE {
        a
    } else {
        INITIAL_URB_CHUNK_SIZE as int
    }
}

/// The state after an ENOMEM, and whether the transfer can go on (it cannot
/// once the chunk is already at the minimum).
pub open spec fn aimd_after_enomem(s: AimdState) -> (AimdState, bool) {
    let new_size = decreased_chunk(s.chunk_size);
    if new_size < s.chunk_size {
        (AimdState { chunk_size: new_size, enomem_floor: s.chunk_size }, true)
    } else {
        (AimdState { chunk_size: s.chunk_size, enomem_floor: s.chunk_size }, false)
    }
}

/// The state after a run of clean calls: the chunk grows when the cap lets it.
pub open spec fn aimd_after_recovery(s: AimdState) -> AimdState {
    let new_size = increased_chunk(s.chunk_size, s.enomem_floor);
    if new_size > s.chunk_size {
        AimdState { chunk_size: new_size as usize, enomem_floor: s.enomem_floor }
    } else {
        s
    }
}

impl AimdState {
    /// The starting state of a direction.
    pub fn initial() -> (r: Self)
        ensures
            r == aimd_initial(),
            aimd_wf(r),
    {
        AimdState { chunk_size: INITIAL_URB_CHUNK_SIZE, enomem_floor: INITIAL_URB_CHUNK_SIZE * 2 }
    }

    /// Multiplicative decrease on ENOMEM; returns whether the transfer may
    /// retry with the smaller chunk.
    pub fn on_enomem(&mut self) -> (retry: bool)
        requires
            aimd_wf(*old(self)),
        ensures
            (*final(self), retry) == aimd_after_enomem(*old(self)),
            aimd_wf(*final(self)),
    {
        let c = self.chunk_size;
        self.enomem_floor = c;
        let half = c / 2;
        let new_size = if half > MIN_URB_CHUNK_SIZE {
            half
        } else {
            MIN_URB_CHUNK_SIZE
        };
        if new_size < c {
            self.chunk_size = new_size;
            true
        } else {
            false
        }
    }

    /// Additive increase after a run of clean calls.
    pub fn on_recovery(&mut self)
        requires
            aimd_wf(*old(self)),
        ensures
            *final(self) == aimd_after_recovery(*old(self)),
            aimd_wf(*final(self)),
    {
        let c = self.chunk_size;
        let doubled = c * 2;
        let cap = self.enomem_floor / 2;
        let a = if doubled < cap {
            doubled
        } else {
            cap
        };
        let new_size = if a < INITIAL_URB_CHUNK_SIZE {
            a
        } else {
            INITIAL_URB_CHUNK_SIZE
        };
        if new_size > c {
            self.chunk_size = new_size;
        }
    }
}

/// Where a bulk transfer stands.
#[derive(Debug, Clone, Copy, PartialEq, Eq, Structural)]
pub enum BulkState {
    Running,
    Complete,
    Failed,
}

/// One bulk transfer of `len` bytes in progress.
#[derive(Debug, Clone, Copy)]
pub struct BulkTransfer {
    /// Bytes the caller asked to move.
    pub len: usize,
    /// Bytes moved so far (also the offset of the next chunk).
    pub done: usize,
    /// Clean calls since the last ENOMEM or size increase.
    pub successes: u32,
    /// Reading from the device (a short read ends the transfer).
    pub is_in: bool,
    /// Length of the chunk last submitted.
    pub pending: usize,
    pub state: BulkState,
}

/// What the caller does next for a transfer.
#[derive(Debug, Clone, Copy, PartialEq, Eq, Structural)]
pub enum BulkStep {
    /// Submit the chunk `offset..offset + len` to the endpoint.
    Submit { offset: usize, len: usize },
    /// The transfer is over, having moved this many bytes.
    Complete(usize),
    /// The transfer failed; the caller reports the error of the last call.
    Fail,
}

/// The outcome of one synchronous chunk.
#[derive(Debug, Clone, Copy, PartialEq, Eq, Structural)]
pub enum BulkEvent {
    /// The call moved this many bytes (at most the chunk submitted).
    Transferred(usize),
    /// The kernel could not allocate DMA memory for the chunk.
    OutOfMemory,
    /// Any other failure.
    Error,
}

/// A transfer's counters fit the bytes asked for.
pub open spec fn transfer_wf(t: BulkTransfer) -> bool {
    &&& t.done <= t.len
    &&& t.successes < AIMD_RECOVERY_CALLS
    &&& t.pending <= t.len - t.done
}

/// The step a transfer is at, given the current chunk size.
pub open spec fn step_of(t: BulkTransfer, chunk: usize) -> BulkStep {
    match t.state {
        BulkState::Failed => BulkStep::Fail,
        BulkState::Complete => BulkStep::Complete(t.done),
        BulkState::Running => if t.done < t.len {
            BulkStep::Submit {
                offset: t.done,
                len: if chunk < t.len - t.done {
                    chunk
                } else {
                    (t.len - t.done) as usize
                },
            }
        } else {
            BulkStep::Complete(t.done)
        },
    }
}

/// The native Linux USB backend: the device's file descriptor, its
/// endpoints, and the adaptive chunk sizes of each direction.
pub struct NativeUsbBackend {
    pub fd: i32,
    pub interface: u8,
    pub in_ep: u8,
    pub out_ep: u8,
    pub out_state: AimdState,
    pub in_state: AimdState,
}

impl NativeUsbBackend {
    /// Both directions start at 256KB chunks.
    pub fn new(fd: i32, interface: u8, in_ep: u8, out_ep: u8) -> (r: Self)
        ensures
            r.fd == fd,
            r.interface == interface,
            r.in_ep == in_ep,
            r.out_ep == out_ep,
            r.out_aimd() == aimd_initial(),
            r.in_aimd() == aimd_initial(),
            r.wf(),
    {
        NativeUsbBackend {
            fd,
            interface,
            in_ep,
            out_ep,
            out_state: AimdState::initial(),
            in_state: AimdState::initial(),
        }
    }

    /// Chunk-size state of the OUT direction.
    pub open spec fn out_aimd(&self) -> AimdState {
        self.out_state
    }

    /// Chunk-size state of the IN direction.
    pub open spec fn in_aimd(&self) -> AimdState {
        self.in_state
    }

    /// Both directions keep their chunk sizes within bounds.
    pub open spec fn wf(&self) -> bool {
        aimd_wf(self.out_aimd()) && aimd_wf(self.in_aimd())
    }

    /// The chunk-size state of the transfer's direction.
    pub open spec fn aimd_for(&self, is_in: bool) -> AimdState {
        if is_in {
            self.in_aimd()
        } else {
            self.out_aimd()
        }
    }

    /// Current chunk size for writes.
    pub fn out_chunk_size(&self) -> (r: usize)
        ensures
            r == self.out_aimd().chunk_size,
    {
        self.out_state.chunk_size
    }

    /// Current chunk size for reads.
    pub fn in_chunk_size(&self) -> (r: usize)
        ensures
            r == self.in_aimd().chunk_size,
    {
        self.in_state.chunk_size
    }

    /// Starts a transfer of `len` bytes in the given direction.
    pub fn begin_transfer(&self, is_in: bool, len: usize) -> (t: BulkTransfer)
        ensures
            t.len == len,
            t.done == 0,
            t.successes == 0,
            t.is_in == is_in,
            t.pending == 0,
            t.state == BulkState::Running,
            transfer_wf(t),
    {
        BulkTransfer { len, done: 0, successes: 0, is_in, pending: 0, state: BulkState::Running }
    }

    /// What to do next for `t`: submit the next chunk (of the current chunk
    /// size, or the rest if smaller), or report the outcome.
    pub fn next_step(&self, t: &mut BulkTransfer) -> (r: BulkStep)
        requires
            self.wf(),
            transfer_wf(*old(t)),
        ensures
            r == step_of(*old(t), self.aimd_for(old(t).is_in).chunk_size),
            r matches BulkStep::Submit { offset, len } ==> (final(t).pending == len && offset
                + len <= old(t).len && len > 0),
            !(r is Submit) ==> final(t).pending == old(t).pending,
            final(t).len == old(t).len,
            final(t).done == old(t).done,
            final(t).successes == old(t).successes,
            final(t).is_in == old(t).is_in,
            final(t).state == old(t).state,
            transfer_wf(*final(t)),
    {
        match t.state {
            BulkState::Failed => BulkStep::Fail,
            BulkState::Complete => BulkStep::Complete(t.done),
            BulkState::Running => {
                if t.done < t.len {
                    let chunk = if t.is_in {
                        self.in_state.chunk_size
                    } else {
                        self.out_state.chunk_size
                    };
                    let rest = t.len - t.done;
                    let this_chunk = if chunk < rest {
                        chunk
                    } else {
                        rest
                    };
                    t.pending = this_chunk;
                    BulkStep::Submit { offset: t.done, len: this_chunk }
                } else {
                    BulkStep::Complete(t.done)
                }
            },
        }
    }

    /// Records the outcome of the chunk last submitted for `t`.
    ///
    /// A transfer of `n` bytes advances the transfer; a short read ends a
    /// read; after 200 clean calls the chunk size may grow. ENOMEM halves the
    /// chunk size and retries the same offset, or fails the transfer when the
    /// chunk is already at the minimum. Any other error fails the transfer.
    pub fn record(&mut self, t: &mut BulkTransfer, ev: BulkEvent)
        requires
            old(self).wf(),
            transfer_wf(*old(t)),
            old(t).state == BulkState::Running,
            old(t).pending > 0,
            ev matches BulkEvent::Transferred(n) ==> n <= old(t).pending,
        ensures
            final(self).wf(),
            transfer_wf(*final(t)),
            final(t).len == old(t).len,
            final(t).is_in == old(t).is_in,
            final(self).fd == old(self).fd,
            final(self).in_ep == old(self).in_ep,
            final(self).out_ep == old(self).out_ep,
            final(self).interface == old(self).interface,
            // the other direction is untouched
            final(self).aimd_for(!old(t).is_in) == old(self).aimd_for(!old(t).is_in),
            ev matches BulkEvent::Transferred(n) ==> {
                &&& final(t).done == old(t).done + n
                &&& if old(t).is_in && n < old(t).pending {
                    final(t).state == BulkState::Complete && final(self).aimd_for(old(t).is_in)
                        == old(self).aimd_for(old(t).is_in)
                } else if old(t).successes + 1 >= AIMD_RECOVERY_CALLS {
                    &&& final(t).state == BulkState::Running
                    &&& final(t).successes == 0
                    &&& final(self).aimd_for(old(t).is_in) == aimd_after_recovery(
                        old(self).aimd_for(old(t).is_in),
                    )
                } else {
                    &&& final(t).state == BulkState::Running
                    &&& final(t).successes == old(t).successes + 1
                    &&& final(self).aimd_for(old(t).is_in) == old(self).aimd_for(old(t).is_in)
                }
            },
            ev is OutOfMemory ==> {
                let (s, retry) = aimd_after_enomem(old(self).aimd_for(old(t).is_in));
                &&& final(self).aimd_for(old(t).is_in) == s
                &&& final(t).done == old(t).done
                &&& final(t).successes == 0
                &&& final(t).state == (if retry {
                    BulkState::Running
                } else {
                    BulkState::Failed
                })
            },
            ev is Error ==> {
                &&& final(t).state == BulkState::Failed
                &&& final(t).done == old(t).done
                &&& final(self).aimd_for(old(t).is_in) == old(self).aimd_for(old(t).is_in)
            },
    {
        match ev {
            BulkEvent::Transferred(n) => {
                let pending = t.pending;
                t.done = t.done + n;
                t.pending = 0;
                if t.is_in && n < pending {
                    t.state = BulkState::Complete;
                } else {
                    t.successes = t.successes + 1;
                    if t.successes >= AIMD_RECOVERY_CALLS {
                        if t.is_in {
                            self.in_state.on_recovery();
                        } else {
                            self.out_state.on_recovery();
                        }
                        t.successes = 0;
                    }
                }
            },
            BulkEvent::OutOfMemory => {
                t.successes = 0;
                t.pending = 0;
                let retry = if t.is_in {
                    self.in_state.on_enomem()
                } else {
                    self.out_state.on_enomem()
                };
                if !retry {
                    t.state = BulkState::Failed;
                }
            },
            BulkEvent::Error => {
                t.pending = 0;
                t.state = BulkState::Failed;
            },
        }
    }
}


/// The state after `n` runs of clean calls.
pub open spec fn recovered(s: AimdState, n: nat) -> AimdState
    decreases n,
{
    if n == 0 {
        s
    } else {
        aimd_after_recovery(recovered(s, (n - 1) as nat))
    }
}

/// Adaptive sizing keeps the chunk size within bounds: from a sound state,
/// an ENOMEM and a run of clean calls both lead to a sound state, so the
/// chunk stays between 16KB and 256KB.
pub proof fn lemma_aimd_stays_sound(s: AimdState)
    requires
        aimd_wf(s),
    ensures
        aimd_wf(aimd_after_enomem(s).0),
        aimd_wf(aimd_after_recovery(s)),
        MIN_URB_CHUNK_SIZE <= aimd_after_recovery(s).chunk_size <= INITIAL_URB_CHUNK_SIZE,
{
}

/// ENOMEM halves the chunk (not below 16KB) and records the failing size;
/// the transfer goes on exactly when the chunk got smaller.
pub proof fn lemma_enomem_halves(s: AimdState)
    requires
        aimd_wf(s),
    ensures
        aimd_after_enomem(s).0.enomem_floor == s.chunk_size,
        aimd_after_enomem(s).1 ==> aimd_after_enomem(s).0.chunk_size == (if s.chunk_size / 2
            > MIN_URB_CHUNK_SIZE {
            s.chunk_size / 2
        } else {
            MIN_URB_CHUNK_SIZE as usize
        }),
        !aimd_after_enomem(s).1 ==> aimd_after_enomem(s).0.chunk_size == s.chunk_size,
        aimd_after_enomem(s).1 <==> s.chunk_size > MIN_URB_CHUNK_SIZE,
{
}

/// Recovery never oscillates back into failure: after an ENOMEM at size
/// `c`, any number of clean runs keeps the chunk at most half of `c` (or at
/// the 16KB minimum) until the next ENOMEM.
pub proof fn lemma_recovery_respects_floor(s: AimdState, n: nat)
    requires
        aimd_wf(s),
    ensures
        aimd_wf(recovered(aimd_after_enomem(s).0, n)),
        recovered(aimd_after_enomem(s).0, n).enomem_floor == s.chunk_size,
        recovered(aimd_after_enomem(s).0, n).chunk_size <= s.chunk_size / 2
            || recovered(aimd_after_enomem(s).0, n).chunk_size == MIN_URB_CHUNK_SIZE,
    decreases n,
{
    if n > 0 {
        lemma_recovery_respects_floor(s, (n - 1) as nat);
    }
}

} // verus!
