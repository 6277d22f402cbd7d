//! Streaming a file into a FAT32 volume.
//!
//! The file writer holds the volume's writer while the file is open, so the
//! clusters it allocates follow one another. Data is gathered in batches of
//! 2 MiB; each batch is written at the file's current cluster, and a new
//! cluster is linked for every cluster's worth of data while the file is not
//! complete.

use vstd::prelude::*;
use std::sync::Arc;
use std::sync::atomic::AtomicBool;
use crate::disk::{DiskWrite, WriteView, writes_view};
use crate::error::Error;
use crate::fat_entries::{FileAttributes, name_entries};
use crate::fat_format::{Fat32BootSector, FAT32_EOC, cluster_start};
use crate::fat_writer::{Fat32Writer, FatWriterView, writer_wf, cluster_bytes, MAX_BATCH};
use crate::text::string_of;

verus! {

/// Size of a write batch.
pub const BATCH_SIZE: usize = 2097152;

/// Where a file stands: its current cluster, the volume's next free cluster,
/// the links made, the bytes accounted and the bytes waiting in the buffer.
pub struct FileState {
    pub current: u32,
    pub next_free: nat,
    pub links: Seq<(u32, u32)>,
    pub written: int,
    pub buffer: Seq<u8>,
}

/// Accounts `remaining` bytes, a cluster at a time: each cluster's worth (or
/// what is left) adds to the bytes written, and while the file is not
/// complete a new cluster is linked after the current one.
pub open spec fn advance(s: FileState, total: int, bpc: int, remaining: int) -> FileState
    decreases remaining,
{
    if remaining <= 0 || bpc <= 0 {
        s
    } else {
        let piece = if bpc < remaining {
            bpc
        } else {
            remaining
        };
        let w = s.written + piece;
        let next = if w < total {
            FileState {
                current: s.next_free as u32,
                next_free: s.next_free + 1,
                links: s.links.push((s.current, s.next_free as u32)),
                written: w,
                ..s
            }
        } else {
            FileState { written: w, ..s }
        };
        advance(next, total, bpc, remaining - piece)
    }
}

/// Writes a block of data at the start of the current cluster and accounts
/// for it; an empty block does nothing.
pub open spec fn data_write(
    boot: Fat32BootSector,
    partition_offset: u64,
    total: int,
    s: FileState,
    data: Seq<u8>,
) -> (FileState, Seq<WriteView>) {
    if data.len() == 0 {
        (s, Seq::empty())
    } else {
        (
            advance(s, total, cluster_bytes(boot), data.len() as int),
            seq![WriteView::Bytes(cluster_start(boot, partition_offset, s.current) as u64, data)],
        )
    }
}

/// The first `n` whole batches of `buf` written directly.
pub open spec fn direct_chunks(
    boot: Fat32BootSector,
    partition_offset: u64,
    total: int,
    s: FileState,
    buf: Seq<u8>,
    n: nat,
) -> (FileState, Seq<WriteView>)
    decreases n,
{
    if n == 0 {
        (s, Seq::empty())
    } else {
        let (s1, w1) = direct_chunks(boot, partition_offset, total, s, buf, (n - 1) as nat);
        let chunk = buf.subrange((n - 1) * BATCH_SIZE, n * BATCH_SIZE);
        let (s2, w2) = data_write(boot, partition_offset, total, s1, chunk);
        (s2, w1 + w2)
    }
}

/// Data taken through the buffer: it fills the buffer up to a batch, and a
/// full buffer is written and emptied.
pub open spec fn buffered(
    boot: Fat32BootSector,
    partition_offset: u64,
    total: int,
    s: FileState,
    data: Seq<u8>,
) -> (FileState, Seq<WriteView>)
    decreases data.len(),
{
    if data.len() == 0 || s.buffer.len() >= BATCH_SIZE {
        (s, Seq::empty())
    } else {
        let space = BATCH_SIZE - s.buffer.len();
        let take = if space < data.len() {
            space
        } else {
            data.len() as int
        };
        let filled = FileState { buffer: s.buffer + data.subrange(0, take), ..s };
        let (s1, w1) = if filled.buffer.len() >= BATCH_SIZE {
            let (t, w) = data_write(boot, partition_offset, total, filled, filled.buffer);
            (FileState { buffer: Seq::empty(), ..t }, w)
        } else {
            (filled, Seq::empty())
        };
        let (s2, w2) = buffered(
            boot,
            partition_offset,
            total,
            s1,
            data.subrange(take, data.len() as int),
        );
        (s2, w1 + w2)
    }
}

/// What `write` does: with an empty buffer and at least a batch of data,
/// whole batches are written directly and the rest is buffered; otherwise
/// the data goes through the buffer.
pub open spec fn write_spec(
    boot: Fat32BootSector,
    partition_offset: u64,
    total: int,
    s: FileState,
    buf: Seq<u8>,
) -> (FileState, Seq<WriteView>) {
    if s.buffer.len() == 0 && buf.len() >= BATCH_SIZE {
        let n = buf.len() / (BATCH_SIZE as nat);
        let (s1, w1) = direct_chunks(boot, partition_offset, total, s, buf, n);
        (FileState { buffer: buf.subrange(n * BATCH_SIZE, buf.len() as int), ..s1 }, w1)
    } else {
        buffered(boot, partition_offset, total, s, buf)
    }
}

/// A file being written into the volume. It holds the volume's writer while
/// the file is open.
pub struct Fat32FileWriter {
    parent: Fat32Writer,
    name: String,
    parent_cluster: u32,
    first_cluster: u32,
    current_cluster: u32,
    bytes_written: u64,
    total_size: u64,
    buffer: Vec<u8>,
}

/// The state of an open file.
pub struct FileWriterView {
    pub parent: FatWriterView,
    pub name: Seq<char>,
    pub parent_cluster: u32,
    pub first_cluster: u32,
    pub current_cluster: u32,
    pub bytes_written: u64,
    pub total_size: u64,
    pub buffer: Seq<u8>,
}

impl View for Fat32FileWriter {
    type V = FileWriterView;

    closed spec fn view(&self) -> FileWriterView {
        FileWriterView {
            parent: self.parent@,
            name: self.name@,
            parent_cluster: self.parent_cluster,
            first_cluster: self.first_cluster,
            current_cluster: self.current_cluster,
            bytes_written: self.bytes_written,
            total_size: self.total_size,
            buffer: self.buffer@,
        }
    }
}

/// The file state of an open file.
pub open spec fn file_state(f: FileWriterView) -> FileState {
    FileState {
        current: f.current_cluster,
        next_free: f.parent.next_free as nat,
        links: f.parent.fat_cache,
        written: f.bytes_written as int,
        buffer: f.buffer,
    }
}

/// An open file is sound: the volume's writer is, its clusters are data
/// clusters, and the buffer holds less than a batch.
pub open spec fn file_wf(f: FileWriterView) -> bool {
    &&& writer_wf(f.parent)
    &&& f.parent_cluster >= 2
    &&& f.current_cluster >= 2
    &&& f.buffer.len() < BATCH_SIZE
}

impl Fat32Writer {
    /// Open a file for streaming write: allocates its first cluster.
    pub fn open_file_writer(self, name: &str, parent_cluster: u32, size: u64) -> (r: Fat32FileWriter)
        requires
            self.wf(),
            self@.next_free < u32::MAX,
            parent_cluster >= 2,
        ensures
            file_wf(r@),
            r@.parent.next_free == self@.next_free + 1,
            r@.parent.fat_cache == self@.fat_cache,
            r@.parent.boot == self@.boot,
            r@.parent.partition_offset == self@.partition_offset,
            r@.parent.tracker == self@.tracker,
            r@.parent.pending == self@.pending,
            r@.name == name@,
            r@.parent_cluster == parent_cluster,
            r@.first_cluster == self@.next_free,
            r@.current_cluster == self@.next_free,
            r@.bytes_written == 0,
            r@.total_size == size,
            r@.buffer.len() == 0,
    {
        let mut parent = self;
        let first_cluster = parent.allocate_cluster();
        Fat32FileWriter {
            parent,
            name: string_of(name),
            parent_cluster,
            first_cluster,
            current_cluster: first_cluster,
            bytes_written: 0,
            total_size: size,
            buffer: Vec::new(),
        }
    }
}


/// Accounting data adds exactly its length to the bytes written, never
/// lowers the cluster counter and keeps the buffer.
proof fn lemma_advance(s: FileState, total: int, bpc: int, remaining: int)
    requires
        bpc > 0,
        remaining >= 0,
    ensures
        advance(s, total, bpc, remaining).written == s.written + remaining,
        advance(s, total, bpc, remaining).next_free >= s.next_free,
        advance(s, total, bpc, remaining).next_free <= s.next_free + remaining,
        advance(s, total, bpc, remaining).buffer == s.buffer,
    decreases remaining,
{
    if remaining > 0 {
        let piece = if bpc < remaining {
            bpc
        } else {
            remaining
        };
        let w = s.written + piece;
        let next = if w < total {
            FileState {
                current: s.next_free as u32,
                next_free: s.next_free + 1,
                links: s.links.push((s.current, s.next_free as u32)),
                written: w,
                ..s
            }
        } else {
            FileState { written: w, ..s }
        };
        lemma_advance(next, total, bpc, remaining - piece);
    }
}

/// Buffered writing never lowers the cluster counter.
proof fn lemma_buffered_grows(
    boot: Fat32BootSector,
    partition_offset: u64,
    total: int,
    s: FileState,
    data: Seq<u8>,
)
    requires
        cluster_bytes(boot) > 0,
    ensures
        buffered(boot, partition_offset, total, s, data).0.next_free >= s.next_free,
    decreases data.len(),
{
    if data.len() > 0 && s.buffer.len() < BATCH_SIZE {
        let space = BATCH_SIZE - s.buffer.len();
        let take = if space < data.len() {
            space
        } else {
            data.len() as int
        };
        let filled = FileState { buffer: s.buffer + data.subrange(0, take), ..s };
        if filled.buffer.len() >= BATCH_SIZE {
            lemma_advance(filled, total, cluster_bytes(boot), filled.buffer.len() as int);
        }
        let s1 = if filled.buffer.len() >= BATCH_SIZE {
            let (t, w) = data_write(boot, partition_offset, total, filled, filled.buffer);
            FileState { buffer: Seq::empty(), ..t }
        } else {
            filled
        };
        lemma_buffered_grows(
            boot,
            partition_offset,
            total,
            s1,
            data.subrange(take, data.len() as int),
        );
    }
}

/// Writing more direct batches never lowers the cluster counter.
proof fn lemma_direct_grows(
    boot: Fat32BootSector,
    partition_offset: u64,
    total: int,
    s: FileState,
    buf: Seq<u8>,
    n1: nat,
    n2: nat,
)
    requires
        cluster_bytes(boot) > 0,
        n1 <= n2,
    ensures
        direct_chunks(boot, partition_offset, total, s, buf, n1).0.next_free <= direct_chunks(
            boot,
            partition_offset,
            total,
            s,
            buf,
            n2,
        ).0.next_free,
    decreases n2,
{
    if n1 < n2 {
        lemma_direct_grows(boot, partition_offset, total, s, buf, n1, (n2 - 1) as nat);
        let (s1, w1) = direct_chunks(boot, partition_offset, total, s, buf, (n2 - 1) as nat);
        let chunk = buf.subrange((n2 - 1) * BATCH_SIZE, n2 * BATCH_SIZE);
        if chunk.len() > 0 {
            lemma_advance(s1, total, cluster_bytes(boot), chunk.len() as int);
        }
    }
}

/// A copy of `data[from..to]`.
fn copy_range(data: &[u8], from: usize, to: usize) -> (r: Vec<u8>)
    requires
        from <= to <= data@.len(),
    ensures
        r@ == data@.subrange(from as int, to as int),
{
    let mut v: Vec<u8> = Vec::new();
    let mut i = from;
    while i < to
        invariant
            from <= i <= to,
            to <= data@.len(),
            v@ == data@.subrange(from as int, i as int),
        decreases to - i,
    {
        v.push(data[i]);
        i = i + 1;
        assert(v@ =~= data@.subrange(from as int, i as int));
    }
    v
}

impl Fat32FileWriter {
    /// The state of the volume's writer.
    pub closed spec fn parent_writer(&self) -> Fat32Writer {
        self.parent
    }

    /// Writes `data[from..to]` at the start of the current cluster and
    /// accounts for it (see `data_write`).
    fn write_data_internal(&mut self, out: &mut Vec<DiskWrite>, data: &[u8], from: usize, to: usize)
        requires
            file_wf(old(self)@),
            from <= to <= data@.len(),
            old(self)@.bytes_written + (to - from) <= u64::MAX,
            data_write(
                old(self)@.parent.boot,
                old(self)@.parent.partition_offset,
                old(self)@.total_size as int,
                file_state(old(self)@),
                data@.subrange(from as int, to as int),
            ).0.next_free <= u32::MAX,
        ensures
            file_wf(final(self)@),
            file_state(final(self)@) == data_write(
                old(self)@.parent.boot,
                old(self)@.parent.partition_offset,
                old(self)@.total_size as int,
                file_state(old(self)@),
                data@.subrange(from as int, to as int),
            ).0,
            writes_view(final(out)@) == writes_view(old(out)@) + data_write(
                old(self)@.parent.boot,
                old(self)@.parent.partition_offset,
                old(self)@.total_size as int,
                file_state(old(self)@),
                data@.subrange(from as int, to as int),
            ).1,
            final(self)@.parent.boot == old(self)@.parent.boot,
            final(self)@.parent.partition_offset == old(self)@.parent.partition_offset,
            final(self)@.parent.tracker == old(self)@.parent.tracker,
            final(self)@.parent.pending == old(self)@.parent.pending,
            final(self)@.name == old(self)@.name,
            final(self)@.parent_cluster == old(self)@.parent_cluster,
            final(self)@.first_cluster == old(self)@.first_cluster,
            final(self)@.total_size == old(self)@.total_size,
            final(self).parent_writer().cancel() == old(self).parent_writer().cancel(),
    {
        if from == to {
            assert(writes_view(out@) =~= writes_view(old(out)@) + Seq::<WriteView>::empty());
            return;
        }
        let ghost s0 = file_state(self@);
        let ghost boot = self@.parent.boot;
        let ghost total = self.total_size as int;
        let bpc = self.parent.bytes_per_cluster() as usize;
        let ghost bpc_i = cluster_bytes(boot);
        let offset = self.parent.cluster_offset(self.current_cluster);
        let bytes = copy_range(data, from, to);
        out.push(DiskWrite::Bytes { offset, data: bytes });
        assert(writes_view(out@) =~= writes_view(old(out)@) + seq![
            WriteView::Bytes(cluster_start(boot, self@.parent.partition_offset, s0.current) as u64, data@.subrange(from as int, to as int)),
        ]);
        let len = to - from;
        let ghost target = advance(s0, total, bpc_i, len as int);
        let mut processed: usize = 0;
        proof {
            lemma_advance(s0, total, bpc_i, len as int);
        }
        while processed < len
            invariant
                processed <= len,
                len == to - from,
                bpc == bpc_i,
                bpc_i > 0,
                file_wf(self@),
                self@.parent.boot == old(self)@.parent.boot,
                self@.parent.partition_offset == old(self)@.parent.partition_offset,
                self@.parent.tracker == old(self)@.parent.tracker,
                self@.parent.pending == old(self)@.parent.pending,
                self@.name == old(self)@.name,
                self@.parent_cluster == old(self)@.parent_cluster,
                self@.first_cluster == old(self)@.first_cluster,
                self@.total_size == old(self)@.total_size,
                self@.buffer == old(self)@.buffer,
                self.parent_writer().cancel() == old(self).parent_writer().cancel(),
                total == self@.total_size,
                self@.bytes_written == old(self)@.bytes_written + processed,
                old(self)@.bytes_written + len <= u64::MAX,
                target == advance(file_state(self@), total, bpc_i, (len - processed) as int),
                target.next_free <= u32::MAX,
            decreases len - processed,
        {
            let ghost cur = file_state(self@);
            let remaining = len - processed;
            let piece = if bpc < remaining {
                bpc
            } else {
                remaining
            };
            self.bytes_written = self.bytes_written + piece as u64;
            processed = processed + piece;
            if self.bytes_written < self.total_size {
                let ghost next = FileState {
                    current: cur.next_free as u32,
                    next_free: cur.next_free + 1,
                    links: cur.links.push((cur.current, cur.next_free as u32)),
                    written: cur.written + piece,
                    ..cur
                };
                proof {
                    lemma_advance(next, total, bpc_i, (len - processed) as int);
                }
                let next_cluster = self.parent.allocate_cluster();
                self.parent.link_cluster(self.current_cluster, next_cluster);
                self.current_cluster = next_cluster;
            }
        }
    }
}


/// Accounting data does not look at the buffer.
proof fn lemma_advance_buffer(s: FileState, b: Seq<u8>, total: int, bpc: int, remaining: int)
    ensures
        advance(FileState { buffer: b, ..s }, total, bpc, remaining) == (FileState {
            buffer: b,
            ..advance(s, total, bpc, remaining)
        }),
    decreases remaining,
{
    if remaining > 0 && bpc > 0 {
        let piece = if bpc < remaining {
            bpc
        } else {
            remaining
        };
        let w = s.written + piece;
        let next = if w < total {
            FileState {
                current: s.next_free as u32,
                next_free: s.next_free + 1,
                links: s.links.push((s.current, s.next_free as u32)),
                written: w,
                ..s
            }
        } else {
            FileState { written: w, ..s }
        };
        lemma_advance_buffer(next, b, total, bpc, remaining - piece);
    }
}

/// Appends `data[from..to]`.
fn append_range(v: &mut Vec<u8>, data: &[u8], from: usize, to: usize)
    requires
        from <= to <= data@.len(),
    ensures
        final(v)@ == old(v)@ + data@.subrange(from as int, to as int),
{
    let mut i = from;
    while i < to
        invariant
            from <= i <= to,
            to <= data@.len(),
            v@ == old(v)@ + data@.subrange(from as int, i as int),
        decreases to - i,
    {
        v.push(data[i]);
        i = i + 1;
        assert(v@ =~= old(v)@ + data@.subrange(from as int, i as int));
    }
}

impl Fat32FileWriter {
    /// Writes data into the file: with an empty buffer and at least a batch
    /// of data, whole batches go straight to the volume and the rest is
    /// buffered; otherwise the data fills the buffer, and each full buffer is
    /// written (see `write_spec`). All of `buf` is taken.
    pub fn write(&mut self, buf: &[u8]) -> (r: Vec<DiskWrite>)
        requires
            file_wf(old(self)@),
            old(self)@.bytes_written + old(self)@.buffer.len() + buf@.len() <= u64::MAX,
            write_spec(
                old(self)@.parent.boot,
                old(self)@.parent.partition_offset,
                old(self)@.total_size as int,
                file_state(old(self)@),
                buf@,
            ).0.next_free <= u32::MAX,
        ensures
            file_wf(final(self)@),
            file_state(final(self)@) == write_spec(
                old(self)@.parent.boot,
                old(self)@.parent.partition_offset,
                old(self)@.total_size as int,
                file_state(old(self)@),
                buf@,
            ).0,
            writes_view(r@) == write_spec(
                old(self)@.parent.boot,
                old(self)@.parent.partition_offset,
                old(self)@.total_size as int,
                file_state(old(self)@),
                buf@,
            ).1,
            final(self)@.parent.boot == old(self)@.parent.boot,
            final(self)@.parent.partition_offset == old(self)@.parent.partition_offset,
            final(self)@.parent.tracker == old(self)@.parent.tracker,
            final(self)@.parent.pending == old(self)@.parent.pending,
            final(self)@.name == old(self)@.name,
            final(self)@.parent_cluster == old(self)@.parent_cluster,
            final(self)@.first_cluster == old(self)@.first_cluster,
            final(self)@.total_size == old(self)@.total_size,
            final(self).parent_writer().cancel() == old(self).parent_writer().cancel(),
    {
        let ghost boot = self@.parent.boot;
        let ghost poff = self@.parent.partition_offset;
        let ghost total = self.total_size as int;
        let ghost s0 = file_state(self@);
        let mut out: Vec<DiskWrite> = Vec::new();
        assert(writes_view(out@) =~= Seq::<WriteView>::empty());
        if self.buffer.len() == 0 && buf.len() >= BATCH_SIZE {
            let chunks = buf.len() / BATCH_SIZE;
            let mut i: usize = 0;
            let mut lo: usize = 0;
            proof {
                assert(chunks * BATCH_SIZE <= buf@.len()) by (nonlinear_arith)
                    requires
                        chunks == buf@.len() / (BATCH_SIZE as nat),
                ;
            }
            while i < chunks
                invariant
                    i <= chunks,
                    chunks == buf@.len() / (BATCH_SIZE as nat),
                    chunks * BATCH_SIZE <= buf@.len(),
                    lo == i * BATCH_SIZE,
                    file_wf(self@),
                    self@.parent.boot == boot,
                    self@.parent.partition_offset == poff,
                    self@.parent.tracker == old(self)@.parent.tracker,
                    self@.parent.pending == old(self)@.parent.pending,
                    self@.name == old(self)@.name,
                    self@.parent_cluster == old(self)@.parent_cluster,
                    self@.first_cluster == old(self)@.first_cluster,
                    self@.total_size == old(self)@.total_size,
                    total == self@.total_size,
                    self.parent_writer().cancel() == old(self).parent_writer().cancel(),
                    cluster_bytes(boot) > 0,
                    s0 == file_state(old(self)@),
                    (file_state(self@), writes_view(out@)) == direct_chunks(
                        boot,
                        poff,
                        total,
                        s0,
                        buf@,
                        i as nat,
                    ),
                    self@.bytes_written == old(self)@.bytes_written + i * BATCH_SIZE,
                    old(self)@.bytes_written + buf@.len() <= u64::MAX,
                    direct_chunks(boot, poff, total, s0, buf@, chunks as nat).0.next_free
                        <= u32::MAX,
                decreases chunks - i,
            {
                proof {
                    assert((i + 1) * BATCH_SIZE <= chunks * BATCH_SIZE) by (nonlinear_arith)
                        requires
                            i + 1 <= chunks,
                    ;
                    lemma_direct_grows(boot, poff, total, s0, buf@, (i + 1) as nat, chunks as nat);
                    lemma_advance(file_state(self@), total, cluster_bytes(boot), BATCH_SIZE as int);
                    assert((i + 1) * BATCH_SIZE <= buf@.len());
                    assert((i + 1) * BATCH_SIZE == lo + BATCH_SIZE) by (nonlinear_arith)
                        requires
                            lo == i * BATCH_SIZE,
                    ;
                }
                let buf_len = buf.len();
                assert(lo + BATCH_SIZE <= buf_len);
                let hi = lo + BATCH_SIZE;
                self.write_data_internal(&mut out, buf, lo, hi);
                i = i + 1;
                lo = hi;
            }
            let rest = copy_range(buf, lo, buf.len());
            self.buffer = rest;
            return out;
        }
        let mut pos: usize = 0;
        proof {
            lemma_buffered_grows(boot, poff, total, s0, buf@);
            assert(buf@.subrange(0, buf@.len() as int) =~= buf@);
        }
        while pos < buf.len()
            invariant
                pos <= buf@.len(),
                file_wf(self@),
                self@.parent.boot == boot,
                self@.parent.partition_offset == poff,
                self@.parent.tracker == old(self)@.parent.tracker,
                self@.parent.pending == old(self)@.parent.pending,
                self@.name == old(self)@.name,
                self@.parent_cluster == old(self)@.parent_cluster,
                self@.first_cluster == old(self)@.first_cluster,
                self@.total_size == old(self)@.total_size,
                total == self@.total_size,
                self.parent_writer().cancel() == old(self).parent_writer().cancel(),
                cluster_bytes(boot) > 0,
                buffered(boot, poff, total, s0, buf@).0 == buffered(
                    boot,
                    poff,
                    total,
                    file_state(self@),
                    buf@.subrange(pos as int, buf@.len() as int),
                ).0,
                buffered(boot, poff, total, s0, buf@).1 == writes_view(out@) + buffered(
                    boot,
                    poff,
                    total,
                    file_state(self@),
                    buf@.subrange(pos as int, buf@.len() as int),
                ).1,
                self@.bytes_written + self@.buffer.len() + (buf@.len() - pos)
                    == old(self)@.bytes_written + old(self)@.buffer.len() + buf@.len(),
                old(self)@.bytes_written + old(self)@.buffer.len() + buf@.len() <= u64::MAX,
                buffered(boot, poff, total, s0, buf@).0.next_free <= u32::MAX,
            decreases buf@.len() - pos,
        {
            let ghost cur = file_state(self@);
            let ghost data = buf@.subrange(pos as int, buf@.len() as int);
            let ghost out0 = writes_view(out@);
            let space = BATCH_SIZE - self.buffer.len();
            let left = buf.len() - pos;
            let take = if space < left {
                space
            } else {
                left
            };
            append_range(&mut self.buffer, buf, pos, pos + take);
            assert(data.subrange(0, take as int) =~= buf@.subrange(pos as int, pos + take));
            assert(data.subrange(take as int, data.len() as int) =~= buf@.subrange(
                pos + take,
                buf@.len() as int,
            ));
            pos = pos + take;
            let ghost filled = file_state(self@);
            if self.buffer.len() >= BATCH_SIZE {
                let mut batch: Vec<u8> = Vec::new();
                std::mem::swap(&mut batch, &mut self.buffer);
                let blen = batch.len();
                proof {
                    lemma_advance_buffer(
                        file_state(self@),
                        filled.buffer,
                        total,
                        cluster_bytes(boot),
                        blen as int,
                    );
                    lemma_advance(filled, total, cluster_bytes(boot), blen as int);
                    let (t, w) = data_write(boot, poff, total, filled, filled.buffer);
                    lemma_buffered_grows(
                        boot,
                        poff,
                        total,
                        FileState { buffer: Seq::empty(), ..t },
                        buf@.subrange(pos as int, buf@.len() as int),
                    );
                    assert(batch@.subrange(0, blen as int) =~= batch@);
                }
                let ghost x = file_state(self@);
                proof {
                    lemma_advance(x, total, cluster_bytes(boot), blen as int);
                }
                self.write_data_internal(&mut out, batch.as_slice(), 0, blen);
                proof {
                    let (t, w) = data_write(boot, poff, total, filled, filled.buffer);
                    assert(filled == (FileState { buffer: filled.buffer, ..x }));
                    assert(file_state(self@) == (FileState { buffer: Seq::<u8>::empty(), ..t }));
                    assert(writes_view(out@) == out0 + w);
                    let rest = buffered(boot, poff, total, file_state(self@), buf@.subrange(pos as int, buf@.len() as int));
                    assert(buffered(boot, poff, total, cur, data) == (rest.0, w + rest.1));
                    assert(out0 + (w + rest.1) =~= writes_view(out@) + rest.1);
                }
            } else {
                proof {
                    let rest = buffered(boot, poff, total, file_state(self@), buf@.subrange(pos as int, buf@.len() as int));
                    assert(file_state(self@) == filled);
                    assert(buffered(boot, poff, total, cur, data) == (rest.0, Seq::<WriteView>::empty() + rest.1));
                    assert(out0 + (Seq::<WriteView>::empty() + rest.1) =~= writes_view(out@) + rest.1);
                }
            }
        }
        proof {
            assert(buf@.subrange(pos as int, buf@.len() as int) =~= Seq::<u8>::empty());
            assert(writes_view(out@) + Seq::<WriteView>::empty() =~= writes_view(out@));
        }
        out
    }
}


impl Fat32FileWriter {
    /// Finishes the file: writes what is buffered, ends the cluster chain,
    /// and queues the file's entry in its directory (archive, with the
    /// file's size). The writes come back together with whether the entry
    /// was queued: a name that needs more than `MAX_BATCH` entries is
    /// refused.
    pub fn flush(&mut self) -> (r: (Vec<DiskWrite>, Result<(), Error>))
        requires
            file_wf(old(self)@),
            old(self)@.bytes_written + old(self)@.buffer.len() <= u64::MAX,
            data_write(
                old(self)@.parent.boot,
                old(self)@.parent.partition_offset,
                old(self)@.total_size as int,
                file_state(old(self)@),
                old(self)@.buffer,
            ).0.next_free <= u32::MAX,
        ensures
            file_wf(final(self)@),
            writes_view(r.0@) == data_write(
                old(self)@.parent.boot,
                old(self)@.parent.partition_offset,
                old(self)@.total_size as int,
                file_state(old(self)@),
                old(self)@.buffer,
            ).1,
            final(self)@.current_cluster == data_write(
                old(self)@.parent.boot,
                old(self)@.parent.partition_offset,
                old(self)@.total_size as int,
                file_state(old(self)@),
                old(self)@.buffer,
            ).0.current,
            final(self)@.parent.next_free == data_write(
                old(self)@.parent.boot,
                old(self)@.parent.partition_offset,
                old(self)@.total_size as int,
                file_state(old(self)@),
                old(self)@.buffer,
            ).0.next_free,
            final(self)@.parent.fat_cache == data_write(
                old(self)@.parent.boot,
                old(self)@.parent.partition_offset,
                old(self)@.total_size as int,
                file_state(old(self)@),
                old(self)@.buffer,
            ).0.links.push((final(self)@.current_cluster, FAT32_EOC)),
            final(self)@.bytes_written == data_write(
                old(self)@.parent.boot,
                old(self)@.parent.partition_offset,
                old(self)@.total_size as int,
                file_state(old(self)@),
                old(self)@.buffer,
            ).0.written,
            final(self)@.buffer.len() == 0,
            r.1 is Ok <==> name_entries(
                old(self)@.name,
                old(self)@.first_cluster,
                0x20,
                old(self)@.total_size as u32,
            ).len() <= MAX_BATCH,
            r.1 is Err ==> r.1 matches Err(Error::Fat32FormatError(_)),
            r.1 is Ok ==> final(self)@.parent.pending == old(self)@.parent.pending.push(
                (
                    old(self)@.parent_cluster,
                    name_entries(
                        old(self)@.name,
                        old(self)@.first_cluster,
                        0x20,
                        old(self)@.total_size as u32,
                    ),
                ),
            ),
            r.1 is Err ==> final(self)@.parent.pending == old(self)@.parent.pending,
            final(self)@.parent.boot == old(self)@.parent.boot,
            final(self)@.parent.partition_offset == old(self)@.parent.partition_offset,
            final(self)@.parent.tracker == old(self)@.parent.tracker,
            final(self)@.name == old(self)@.name,
            final(self)@.parent_cluster == old(self)@.parent_cluster,
            final(self)@.first_cluster == old(self)@.first_cluster,
            final(self)@.total_size == old(self)@.total_size,
            final(self).parent_writer().cancel() == old(self).parent_writer().cancel(),
    {
        let ghost s0 = file_state(self@);
        let ghost total = self@.total_size as int;
        let ghost boot = self@.parent.boot;
        let mut out: Vec<DiskWrite> = Vec::new();
        let mut batch: Vec<u8> = Vec::new();
        std::mem::swap(&mut batch, &mut self.buffer);
        let blen = batch.len();
        proof {
            let x = file_state(self@);
            lemma_advance_buffer(x, s0.buffer, total, cluster_bytes(boot), blen as int);
            lemma_advance(x, total, cluster_bytes(boot), blen as int);
            assert(s0 == (FileState { buffer: s0.buffer, ..x }));
            assert(batch@.subrange(0, blen as int) =~= batch@);
            assert(writes_view(out@) =~= Seq::<WriteView>::empty());
        }
        self.write_data_internal(&mut out, batch.as_slice(), 0, blen);
        assert(writes_view(out@) =~= Seq::<WriteView>::empty() + data_write(
            boot,
            self@.parent.partition_offset,
            total,
            file_state(old(self)@),
            old(self)@.buffer,
        ).1);
        self.parent.link_cluster(self.current_cluster, FAT32_EOC);
        let status = self.parent.add_directory_entry(
            self.parent_cluster,
            self.name.as_str(),
            self.first_cluster,
            FileAttributes::archive(),
            self.total_size as u32,
        );
        (out, status)
    }

    /// Gives back the volume's writer.
    pub fn finish(self) -> (r: Fat32Writer)
        requires
            file_wf(self@),
        ensures
            r.wf(),
            r@ == self@.parent,
            r.cancel() == self.parent_writer().cancel(),
    {
        self.parent
    }

    /// Whether an unfinished file should still be finished when it is
    /// dropped: when the transfer was not cancelled, not all bytes were
    /// written, and a first cluster was allocated.
    pub fn needs_flush_on_drop(&self, cancelled: bool) -> (r: bool)
        ensures
            r == (!cancelled && self@.bytes_written < self@.total_size && self@.first_cluster != 0),
    {
        !cancelled && self.bytes_written < self.total_size && self.first_cluster != 0
    }

    /// The first cluster of the file.
    pub fn first_cluster(&self) -> (r: u32)
        ensures
            r == self@.first_cluster,
    {
        self.first_cluster
    }

    /// Bytes accounted so far.
    pub fn bytes_written(&self) -> (r: u64)
        ensures
            r == self@.bytes_written,
    {
        self.bytes_written
    }

    /// The volume's cancellation handle.
    pub fn cancel_handle(&self) -> (r: Option<Arc<AtomicBool>>)
        ensures
            r == self.parent_writer().cancel(),
    {
        self.parent.cancel_handle()
    }
}


/// Buffered writing accounts for every byte and hands out at most one
/// cluster per byte.
proof fn lemma_buffered_accounts(
    boot: Fat32BootSector,
    partition_offset: u64,
    total: int,
    s: FileState,
    data: Seq<u8>,
)
    requires
        cluster_bytes(boot) > 0,
        s.buffer.len() < BATCH_SIZE,
    ensures
        buffered(boot, partition_offset, total, s, data).0.written + buffered(
            boot,
            partition_offset,
            total,
            s,
            data,
        ).0.buffer.len() == s.written + s.buffer.len() + data.len(),
        buffered(boot, partition_offset, total, s, data).0.next_free <= s.next_free + s.buffer.len()
            + data.len(),
        buffered(boot, partition_offset, total, s, data).0.buffer.len() < BATCH_SIZE,
    decreases data.len(),
{
    if data.len() > 0 {
        let space = BATCH_SIZE - s.buffer.len();
        let take = if space < data.len() {
            space
        } else {
            data.len() as int
        };
        let filled = FileState { buffer: s.buffer + data.subrange(0, take), ..s };
        let rest = data.subrange(take, data.len() as int);
        if filled.buffer.len() >= BATCH_SIZE {
            lemma_advance(filled, total, cluster_bytes(boot), filled.buffer.len() as int);
            let (t, w) = data_write(boot, partition_offset, total, filled, filled.buffer);
            lemma_buffered_accounts(
                boot,
                partition_offset,
                total,
                FileState { buffer: Seq::empty(), ..t },
                rest,
            );
        } else {
            lemma_buffered_accounts(boot, partition_offset, total, filled, rest);
        }
    }
}

/// Direct batches account for their bytes and hand out at most one cluster
/// per byte.
proof fn lemma_direct_accounts(
    boot: Fat32BootSector,
    partition_offset: u64,
    total: int,
    s: FileState,
    buf: Seq<u8>,
    n: nat,
)
    requires
        cluster_bytes(boot) > 0,
        n * BATCH_SIZE <= buf.len(),
    ensures
        direct_chunks(boot, partition_offset, total, s, buf, n).0.written == s.written + n
            * BATCH_SIZE,
        direct_chunks(boot, partition_offset, total, s, buf, n).0.next_free <= s.next_free + n
            * BATCH_SIZE,
        direct_chunks(boot, partition_offset, total, s, buf, n).0.buffer == s.buffer,
    decreases n,
{
    if n > 0 {
        assert((n - 1) * BATCH_SIZE <= n * BATCH_SIZE) by (nonlinear_arith)
            requires
                n > 0,
        ;
        lemma_direct_accounts(boot, partition_offset, total, s, buf, (n - 1) as nat);
        let (s1, w1) = direct_chunks(boot, partition_offset, total, s, buf, (n - 1) as nat);
        lemma_advance(s1, total, cluster_bytes(boot), BATCH_SIZE as int);
        assert(n * BATCH_SIZE == (n - 1) * BATCH_SIZE + BATCH_SIZE) by (nonlinear_arith)
            requires
                n > 0,
        ;
    }
}

/// Every byte handed to an open file is accounted for: after a write, the
/// bytes written and the bytes waiting in the buffer add up to what they
/// were plus the bytes of the write; and at most one cluster is handed out
/// per byte.
pub proof fn lemma_write_accounts(
    boot: Fat32BootSector,
    partition_offset: u64,
    total: int,
    s: FileState,
    buf: Seq<u8>,
)
    requires
        cluster_bytes(boot) > 0,
        s.buffer.len() < BATCH_SIZE,
    ensures
        write_spec(boot, partition_offset, total, s, buf).0.written + write_spec(
            boot,
            partition_offset,
            total,
            s,
            buf,
        ).0.buffer.len() == s.written + s.buffer.len() + buf.len(),
        write_spec(boot, partition_offset, total, s, buf).0.next_free <= s.next_free
            + s.buffer.len() + buf.len(),
        write_spec(boot, partition_offset, total, s, buf).0.buffer.len() < BATCH_SIZE,
{
    if s.buffer.len() == 0 && buf.len() >= BATCH_SIZE {
        let n = buf.len() / (BATCH_SIZE as nat);
        assert(n * BATCH_SIZE <= buf.len()) by (nonlinear_arith)
            requires
                n == buf.len() / (BATCH_SIZE as nat),
        ;
        assert(buf.len() - n * BATCH_SIZE < BATCH_SIZE) by (nonlinear_arith)
            requires
                n == buf.len() / (BATCH_SIZE as nat),
        ;
        lemma_direct_accounts(boot, partition_offset, total, s, buf, n);
    } else {
        lemma_buffered_accounts(boot, partition_offset, total, s, buf);
    }
}

impl Fat32FileWriter {
    /// Whether `write` can take `buf`: the volume has a cluster number for
    /// each byte and the byte count fits in 64 bits.
    pub fn write_fits(&self, buf: &[u8]) -> (r: bool)
        requires
            file_wf(self@),
        ensures
            r == (self@.parent.next_free + self@.buffer.len() + buf@.len() <= u32::MAX
                && self@.bytes_written + self@.buffer.len() + buf@.len() <= u64::MAX),
            r ==> write_spec(
                self@.parent.boot,
                self@.parent.partition_offset,
                self@.total_size as int,
                file_state(self@),
                buf@,
            ).0.next_free <= u32::MAX,
    {
        proof {
            lemma_write_accounts(
                self@.parent.boot,
                self@.parent.partition_offset,
                self@.total_size as int,
                file_state(self@),
                buf@,
            );
        }
        let nf = self.parent.next_cluster() as u128;
        let b = self.buffer.len() as u128;
        let len = buf.len() as u128;
        nf + b + len <= u32::MAX as u128 && (self.bytes_written as u128) + b + len
            <= u64::MAX as u128
    }

    /// Whether `flush` can write what is buffered: the volume has a cluster
    /// number for each buffered byte.
    pub fn flush_fits(&self) -> (r: bool)
        requires
            file_wf(self@),
        ensures
            r == (self@.parent.next_free + self@.buffer.len() <= u32::MAX && self@.bytes_written
                + self@.buffer.len() <= u64::MAX),
            r ==> data_write(
                self@.parent.boot,
                self@.parent.partition_offset,
                self@.total_size as int,
                file_state(self@),
                self@.buffer,
            ).0.next_free <= u32::MAX,
    {
        proof {
            if self@.buffer.len() > 0 {
                lemma_advance(
                    file_state(self@),
                    self@.total_size as int,
                    cluster_bytes(self@.parent.boot),
                    self@.buffer.len() as int,
                );
            }
        }
        let nf = self.parent.next_cluster() as u128;
        let b = self.buffer.len() as u128;
        nf + b <= u32::MAX as u128 && (self.bytes_written as u128) + b <= u64::MAX as u128
    }
}

/// The links of a chain of `n` clusters hung after cluster `start`: `start`
/// to `first`, then each cluster to the next, `first`, `first + 1`, ...
pub open spec fn chain_from(start: u32, first: nat, n: nat) -> Seq<(u32, u32)> {
    Seq::new(
        n,
        |k: int|
            (if k == 0 {
                start
            } else {
                (first + k - 1) as u32
            }, (first + k) as u32),
    )
}

/// The clusters a file is given form one chain: accounting bytes only
/// appends to the FAT links, the links appended hang fresh clusters (in
/// allocation order) one after the other behind the current cluster, and
/// the file's current cluster is the last of them.
pub proof fn lemma_advance_chains(s: FileState, total: int, bpc: int, remaining: int)
    requires
        bpc > 0,
    ensures
        ({
            let t = advance(s, total, bpc, remaining);
            let n = (t.next_free - s.next_free) as nat;
            &&& t.next_free >= s.next_free
            &&& t.links == s.links + chain_from(s.current, s.next_free, n)
            &&& t.current == (if n == 0 {
                s.current
            } else {
                (s.next_free + n - 1) as u32
            })
        }),
    decreases remaining,
{
    if remaining <= 0 {
        assert(s.links + chain_from(s.current, s.next_free, 0) =~= s.links);
    } else {
        let piece = if bpc < remaining {
            bpc
        } else {
            remaining
        };
        let w = s.written + piece;
        if w < total {
            let next = FileState {
                current: s.next_free as u32,
                next_free: s.next_free + 1,
                links: s.links.push((s.current, s.next_free as u32)),
                written: w,
                ..s
            };
            lemma_advance_chains(next, total, bpc, remaining - piece);
            let t = advance(next, total, bpc, remaining - piece);
            let m = (t.next_free - next.next_free) as nat;
            assert(next.links =~= s.links + chain_from(s.current, s.next_free, 1));
            assert(chain_from(s.current, s.next_free, 1) + chain_from(
                s.next_free as u32,
                s.next_free + 1,
                m,
            ) =~= chain_from(s.current, s.next_free, m + 1));
            assert(s.links + chain_from(s.current, s.next_free, 1) + chain_from(
                s.next_free as u32,
                s.next_free + 1,
                m,
            ) =~= s.links + chain_from(s.current, s.next_free, m + 1));
        } else {
            let next = FileState { written: w, ..s };
            lemma_advance_chains(next, total, bpc, remaining - piece);
        }
    }
}

} // verus!
