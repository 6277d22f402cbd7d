//! The bookkeeping of the asynchronous USB writer: which bytes are gathered
//! into a job, where each job lands on the device, and how a write that is
//! not aligned to blocks is merged into the blocks around it.

use vstd::prelude::*;
use crate::bytes::push_all;
use crate::config::ASYNC_BUFFER_SIZE;

verus! {

/// A write handed to the worker: bytes and the device position they go to.
pub struct WriteJob {
    pub buffer: Vec<u8>,
    pub position: u64,
}

/// A job as its position and bytes.
pub open spec fn job_view(j: WriteJob) -> (u64, Seq<u8>) {
    (j.position, j.buffer@)
}

/// How the worker puts a job on the device.
#[derive(Debug, Clone, Copy, PartialEq, Eq, Structural)]
pub enum BlockWrite {
    /// Whole blocks from `lba` on.
    Aligned { lba: u64 },
    /// The blocks from `start_lba` covering the job are read, the job's
    /// bytes copied in at `offset`, and `total_bytes` written back.
    ReadModifyWrite { start_lba: u64, offset: u64, total_bytes: u64 },
}

/// The blocks a job of `len` bytes at `position` touches: from the block
/// holding its first byte to the block holding its last.
pub open spec fn block_write_spec(position: u64, len: nat, block_size: u64) -> BlockWrite {
    if position % block_size == 0 && len % (block_size as nat) == 0 {
        BlockWrite::Aligned { lba: position / block_size }
    } else {
        let start_lba = position / block_size;
        let end_lba = (position + len + block_size - 1) / (block_size as int);
        BlockWrite::ReadModifyWrite {
            start_lba,
            offset: position % block_size,
            total_bytes: ((end_lba - start_lba) * block_size) as u64,
        }
    }
}

/// A plan covers its job with whole blocks and nothing more: an aligned
/// write is only planned for a job that starts on a block boundary and is a
/// whole number of blocks long, at the block where it starts; otherwise the
/// blocks read and written back start at the block holding the job's first
/// byte, the job sits at `offset` inside them (before the end of that first
/// block), they are a whole number of blocks, hold the whole job, and end in
/// the block holding its last byte.
pub proof fn lemma_block_write_covers(position: u64, len: nat, block_size: u64)
    requires
        block_size > 0,
        position + len + block_size <= u64::MAX,
    ensures
        match block_write_spec(position, len, block_size) {
            BlockWrite::Aligned { lba } => {
                &&& position % block_size == 0
                &&& len % (block_size as nat) == 0
                &&& lba * block_size == position
            },
            BlockWrite::ReadModifyWrite { start_lba, offset, total_bytes } => {
                &&& !(position % block_size == 0 && len % (block_size as nat) == 0)
                &&& start_lba * block_size + offset == position
                &&& offset < block_size
                &&& total_bytes % block_size == 0
                &&& offset + len <= total_bytes
                &&& total_bytes < offset + len + block_size
            },
        },
{
    let b = block_size as int;
    let p = position as int;
    let q = p / b;
    let r = p % b;
    vstd::arithmetic::div_mod::lemma_fundamental_div_mod(p, b);
    assert(0 <= r < b);
    if !(position % block_size == 0 && len % (block_size as nat) == 0) {
        let e = (p + len + b - 1) / b;
        vstd::arithmetic::div_mod::lemma_fundamental_div_mod(p + len + b - 1, b);
        let m = (p + len + b - 1) % b;
        assert(0 <= m < b);
        assert(e * b == p + len + b - 1 - m);
        assert(q * b == p - r);
        let t = (e - q) * b;
        assert(t == e * b - q * b) by (nonlinear_arith)
            requires
                t == (e - q) * b,
        ;
        assert(t == len + r + b - 1 - m);
        assert(e >= q) by (nonlinear_arith)
            requires
                e * b == p + len + b - 1 - m,
                q * b == p - r,
                0 <= m < b,
                0 <= r < b,
                b > 0,
                len >= 0,
        ;
        assert(t % b == 0) by {
            vstd::arithmetic::div_mod::lemma_mod_multiples_basic(e - q, b);
        }
        assert(t <= u64::MAX) by (nonlinear_arith)
            requires
                t == len + r + b - 1 - m,
                r < b,
                p + len + b <= u64::MAX,
                p >= r,
                m >= 0,
        ;
    } else {
        assert(q * b == p);
    }
}

/// How a job of `len` bytes at `position` goes on a device of
/// `block_size`-byte blocks (see `block_write_spec`).
pub fn plan_block_write(position: u64, len: usize, block_size: u64) -> (r: BlockWrite)
    requires
        block_size > 0,
        position + len + block_size <= u64::MAX,
    ensures
        r == block_write_spec(position, len as nat, block_size),
{
    if position % block_size == 0 && (len as u64) % block_size == 0 {
        return BlockWrite::Aligned { lba: position / block_size };
    }
    let start_lba = position / block_size;
    let end_pos = position + len as u64;
    let end_lba = (end_pos + block_size - 1) / block_size;
    proof {
        assert(start_lba <= end_lba) by (nonlinear_arith)
            requires
                start_lba == position / block_size,
                end_lba == (position + len + block_size - 1) / (block_size as int),
                block_size > 0,
        ;
        assert((end_lba - start_lba) * block_size <= end_lba * block_size) by (nonlinear_arith)
            requires
                start_lba <= end_lba,
                block_size > 0,
        ;
        assert(end_lba * block_size <= position + len + block_size - 1) by (nonlinear_arith)
            requires
                end_lba == (position + len + block_size - 1) / (block_size as int),
                block_size > 0,
        ;
    }
    BlockWrite::ReadModifyWrite {
        start_lba,
        offset: position % block_size,
        total_bytes: (end_lba - start_lba) * block_size,
    }
}

/// Copies a job's bytes into the blocks read around it, at `offset`.
pub fn merge_into_blocks(blocks: &mut Vec<u8>, offset: usize, data: &[u8])
    requires
        offset + data@.len() <= old(blocks)@.len(),
    ensures
        final(blocks)@ == old(blocks)@.subrange(0, offset as int) + data@ + old(blocks)@.subrange(
            offset + data@.len(),
            old(blocks)@.len() as int,
        ),
{
    let mut i: usize = 0;
    let n = data.len();
    while i < n
        invariant
            i <= n,
            n == data@.len(),
            offset + n <= blocks@.len(),
            blocks@.len() == old(blocks)@.len(),
            forall|k: int| 0 <= k < offset ==> blocks@[k] == old(blocks)@[k],
            forall|k: int| 0 <= k < i ==> blocks@[offset + k] == data@[k],
            forall|k: int| offset + n <= k < blocks@.len() ==> blocks@[k] == old(blocks)@[k],
        decreases n - i,
    {
        let blen = blocks.len();
        assert(offset + i < blen);
        blocks.set(offset + i, data[i]);
        i = i + 1;
    }
    assert(blocks@ =~= old(blocks)@.subrange(0, offset as int) + data@ + old(blocks)@.subrange(
        offset + data@.len(),
        old(blocks)@.len() as int,
    ));
}

/// The blocks a read of `len` bytes at `position` covers: the first block,
/// where in it the read starts, and the bytes of whole blocks to read.
pub open spec fn read_window_spec(position: u64, len: nat, block_size: u64) -> (u64, u64, u64) {
    let offset = position % block_size;
    let blocks = (offset + len + block_size - 1) / (block_size as int);
    (position / block_size, offset, (blocks * block_size) as u64)
}

/// The blocks to read for a read of `len` bytes at `position` (see
/// `read_window_spec`).
pub fn read_window(position: u64, len: usize, block_size: u64) -> (r: (u64, u64, u64))
    requires
        block_size > 0,
        block_size + len + block_size <= u64::MAX,
    ensures
        r == read_window_spec(position, len as nat, block_size),
{
    let offset = position % block_size;
    let needed = offset + len as u64;
    let blocks = (needed + block_size - 1) / block_size;
    proof {
        assert(blocks * block_size <= needed + block_size - 1) by (nonlinear_arith)
            requires
                blocks == (needed + block_size - 1) / (block_size as int),
                block_size > 0,
        ;
    }
    (position / block_size, offset, blocks * block_size)
}

/// Where a seek goes.
#[derive(Debug, Clone, Copy)]
pub enum SeekTarget {
    Start(u64),
    Current(i64),
    End(i64),
}

/// The position a seek moves to: an absolute position, or a signed
/// distance from the current position or from the end, taken through `i64`
/// as the device does.
pub open spec fn seek_spec(target: SeekTarget, current: u64, size: u64) -> u64 {
    match target {
        SeekTarget::Start(n) => n,
        SeekTarget::Current(n) => ((current as i64) + n) as u64,
        SeekTarget::End(n) => ((size as i64) + n) as u64,
    }
}

/// The position a seek moves to (see `seek_spec`).
pub fn seek_position(target: SeekTarget, current: u64, size: u64) -> (r: u64)
    requires
        target matches SeekTarget::Current(n) ==> i64::MIN <= (current as i64) + n <= i64::MAX,
        target matches SeekTarget::End(n) ==> i64::MIN <= (size as i64) + n <= i64::MAX,
    ensures
        r == seek_spec(target, current, size),
{
    match target {
        SeekTarget::Start(n) => n,
        SeekTarget::Current(n) => (current as i64 + n) as u64,
        SeekTarget::End(n) => (size as i64 + n) as u64,
    }
}

/// The writer's position, the bytes gathered and where they go.
pub struct PendingWrites {
    pub current_pos: u64,
    pub pending: Vec<u8>,
    pub pending_start: u64,
}

/// The jobs a write hands to the worker, and the state after it: a write of
/// at least a buffer of whole sectors, with nothing gathered and the
/// position on a sector, goes out as it is; any other write is gathered, and
/// the gathered bytes go out once they fill a buffer.
pub open spec fn write_step(cur: u64, pending: Seq<u8>, start: u64, buf: Seq<u8>) -> (
    u64,
    Seq<u8>,
    u64,
    Seq<(u64, Seq<u8>)>,
) {
    let next = (cur + buf.len()) as u64;
    if pending.len() == 0 && buf.len() >= ASYNC_BUFFER_SIZE && cur % 512 == 0 && buf.len() % 512
        == 0 {
        (next, Seq::empty(), next, seq![(cur, buf)])
    } else {
        let s = if pending.len() == 0 {
            cur
        } else {
            start
        };
        let gathered = pending + buf;
        if gathered.len() >= ASYNC_BUFFER_SIZE {
            (next, Seq::empty(), next, seq![(s, gathered)])
        } else {
            (next, gathered, s, Seq::empty())
        }
    }
}

/// The gathered bytes end at the writer's position.
pub open spec fn pending_wf(cur: u64, pending: Seq<u8>, start: u64) -> bool {
    start + pending.len() == cur
}

/// Every byte written goes out at the position it was written to: when the
/// gathered bytes end at the position before a write, they still do after
/// it, the job handed out (at most one) ends at the new position, and the
/// job's bytes followed by what stays gathered are the bytes gathered
/// before followed by the bytes written.
pub proof fn lemma_write_step_keeps_positions(cur: u64, pending: Seq<u8>, start: u64, buf: Seq<u8>)
    requires
        pending_wf(cur, pending, start),
        cur + buf.len() <= u64::MAX,
    ensures
        ({
            let (c2, p2, s2, jobs) = write_step(cur, pending, start, buf);
            &&& pending_wf(c2, p2, s2)
            &&& c2 == cur + buf.len()
            &&& jobs.len() <= 1
            &&& jobs.len() == 0 ==> p2 == pending + buf
            &&& jobs.len() == 1 ==> {
                &&& p2.len() == 0
                &&& jobs[0].1 == pending + buf
                &&& jobs[0].0 + jobs[0].1.len() == c2
            }
        }),
{
    if pending.len() == 0 {
        assert(pending + buf =~= buf);
    }
}

impl PendingWrites {
    /// The gathered bytes end at the writer's position.
    pub open spec fn wf(&self) -> bool {
        pending_wf(self.current_pos, self.pending@, self.pending_start)
    }

    /// Nothing gathered, at position 0.
    pub fn new() -> (r: Self)
        ensures
            r.current_pos == 0,
            r.pending@.len() == 0,
            r.pending_start == 0,
            r.wf(),
    {
        PendingWrites { current_pos: 0, pending: Vec::new(), pending_start: 0 }
    }

    /// Takes a write (see `write_step`), returning the jobs it hands out.
    pub fn write(&mut self, buf: &[u8]) -> (r: Vec<WriteJob>)
        requires
            old(self).current_pos + buf@.len() <= u64::MAX,
        ensures
            (final(self).current_pos, final(self).pending@, final(self).pending_start, r@.map_values(
                |j: WriteJob| job_view(j),
            )) == write_step(
                old(self).current_pos,
                old(self).pending@,
                old(self).pending_start,
                buf@,
            ),
            old(self).wf() ==> final(self).wf(),
    {
        proof {
            if self.wf() {
                lemma_write_step_keeps_positions(self.current_pos, self.pending@, self.pending_start, buf@);
            }
        }
        let mut jobs: Vec<WriteJob> = Vec::new();
        let len = buf.len();
        if self.pending.len() == 0 && len >= ASYNC_BUFFER_SIZE && self.current_pos % 512 == 0
            && (len as u64) % 512 == 0 {
            let mut data: Vec<u8> = Vec::new();
            push_all(&mut data, buf);
            assert(data@ =~= buf@);
            jobs.push(WriteJob { buffer: data, position: self.current_pos });
            self.current_pos = self.current_pos + len as u64;
            self.pending_start = self.current_pos;
            assert(jobs@.map_values(|j: WriteJob| job_view(j)) =~= seq![
                (old(self).current_pos, buf@),
            ]);
            return jobs;
        }
        if self.pending.len() == 0 {
            self.pending_start = self.current_pos;
        }
        push_all(&mut self.pending, buf);
        self.current_pos = self.current_pos + len as u64;
        if self.pending.len() >= ASYNC_BUFFER_SIZE {
            let job = self.flush_pending();
            match job {
                Some(j) => {
                    jobs.push(j);
                },
                None => {},
            }
            assert(jobs@.map_values(|j: WriteJob| job_view(j)) =~= seq![
                (write_step(old(self).current_pos, old(self).pending@, old(self).pending_start, buf@).3[0]),
            ]);
        } else {
            assert(jobs@.map_values(|j: WriteJob| job_view(j)) =~= Seq::<(u64, Seq<u8>)>::empty());
        }
        jobs
    }

    /// Hands out the gathered bytes, if any, as a job at the position they
    /// were gathered for; the next bytes go where the writer now is.
    pub fn flush_pending(&mut self) -> (r: Option<WriteJob>)
        ensures
            old(self).pending@.len() == 0 ==> r is None && *final(self) == *old(self),
            old(self).pending@.len() > 0 ==> (r matches Some(j) && j.position
                == old(self).pending_start && j.buffer@ == old(self).pending@),
            old(self).pending@.len() > 0 ==> final(self).pending@.len() == 0
                && final(self).pending_start == old(self).current_pos,
            final(self).current_pos == old(self).current_pos,
            final(self).wf() || old(self).pending@.len() == 0,
            old(self).wf() ==> final(self).wf(),
    {
        if self.pending.len() == 0 {
            return None;
        }
        let mut next: Vec<u8> = Vec::new();
        std::mem::swap(&mut self.pending, &mut next);
        let pos = self.pending_start;
        self.pending_start = self.current_pos;
        Some(WriteJob { buffer: next, position: pos })
    }

    /// Moves the writer to `new_pos`; true when it moved, in which case the
    /// gathered bytes must be handed out first (`flush_pending`) and new
    /// ones go to the new position.
    pub fn seek_to(&mut self, new_pos: u64) -> (moved: bool)
        requires
            old(self).pending@.len() == 0,
        ensures
            moved <==> new_pos != old(self).current_pos,
            final(self).current_pos == new_pos,
            moved ==> final(self).pending_start == new_pos,
            !moved ==> final(self).pending_start == old(self).pending_start,
            final(self).pending@ == old(self).pending@,
            old(self).wf() ==> final(self).wf(),
            moved ==> final(self).wf(),
    {
        if new_pos != self.current_pos {
            self.current_pos = new_pos;
            self.pending_start = new_pos;
            return true;
        }
        false
    }
}

/// The device position written up to once a job is done.
pub fn job_end(job: &WriteJob) -> (r: u64)
    requires
        job.position + job.buffer@.len() <= u64::MAX,
    ensures
        r == job.position + job.buffer@.len(),
{
    job.position + job.buffer.len() as u64
}

/// Whether a job's buffer goes back to the pool: only whole-size buffers.
pub fn returns_to_pool(job: &WriteJob) -> (r: bool)
    ensures
        r == (job.buffer@.len() == ASYNC_BUFFER_SIZE),
{
    job.buffer.len() == ASYNC_BUFFER_SIZE
}

} // verus!
