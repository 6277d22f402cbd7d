//! FAT32 file and directory writer.
//!
//! Lays out files and directories in a freshly formatted FAT32 partition:
//! allocates clusters in order, caches FAT chain updates and directory
//! entries, and produces the writes that put them on the device. Directory
//! entries are batched and placed when the FAT is flushed.

use vstd::prelude::*;
use std::collections::HashMap;
use std::sync::Arc;
use std::sync::atomic::AtomicBool;
use crate::bytes::{zeros, le32, push_all, push_zeros};
use crate::disk::{DiskWrite, WriteView, writes_view};
use crate::fat_entries::{
    FileAttributes,
    create_dir_entry_raw,
    create_lfn_entries,
    name_entries,
    raw_entry_image,
    lfn_units,
    lfn_count,
    short_name_of,
};
use crate::fat_format::{
    Fat32BootSector,
    Fat32Formatter,
    FAT32_EOC,
    cluster_start,
    data_area_start,
    format_writes_spec,
};
use crate::text::{string_of, push_decimal};
use crate::error::Error;

verus! {

/// A batch of directory entries waiting to be placed in a directory.
pub struct PendingDirEntry {
    pub parent_cluster: u32,
    pub entries: Vec<[u8; 32]>,
}

/// FAT32 file writer state: the formatter (which hands out clusters), the
/// FAT chain updates not yet written, the fill level of each directory, and
/// the directory entries not yet placed.
pub struct Fat32Writer {
    formatter: Fat32Formatter,
    /// FAT cache (cluster -> next cluster), in the order the links were made.
    fat_cache: Vec<(u32, u32)>,
    /// Cancellation handle.
    cancel_handle: Option<Arc<AtomicBool>>,
    /// Where each directory's entries continue: directory -> (the last
    /// cluster of its chain, next free entry index in that cluster).
    dir_entry_tracker: HashMap<u32, (u32, usize)>,
    /// Pending directory entries to write in batch.
    pending_dir_entries: Vec<PendingDirEntry>,
}

/// The layout state of a writer.
pub struct FatWriterView {
    pub boot: Fat32BootSector,
    pub partition_offset: u64,
    pub next_free: u32,
    pub fat_cache: Seq<(u32, u32)>,
    pub tracker: Map<u32, (u32, usize)>,
    pub pending: Seq<(u32, Seq<Seq<u8>>)>,
}

/// The entries of a pending batch, as byte sequences.
pub open spec fn entries_view(e: Seq<[u8; 32]>) -> Seq<Seq<u8>> {
    e.map_values(|a: [u8; 32]| a@)
}

/// A pending batch as its parent cluster and entries.
pub open spec fn pending_view(p: PendingDirEntry) -> (u32, Seq<Seq<u8>>) {
    (p.parent_cluster, entries_view(p.entries@))
}

impl View for Fat32Writer {
    type V = FatWriterView;

    closed spec fn view(&self) -> FatWriterView {
        FatWriterView {
            boot: self.formatter.boot(),
            partition_offset: self.formatter.offset(),
            next_free: self.formatter.next_free(),
            fat_cache: self.fat_cache@,
            tracker: self.dir_entry_tracker@,
            pending: self.pending_dir_entries@.map_values(|p: PendingDirEntry| pending_view(p)),
        }
    }
}

/// Every cluster's offset fits in 64 bits, and a cluster holds at least two
/// entries' worth of bytes.
pub open spec fn geometry_ok(boot: Fat32BootSector, partition_offset: u64) -> bool {
    &&& 1 <= boot.sectors_per_cluster
    &&& 1 <= boot.sectors_per_fat
    &&& partition_offset + boot.fsinfo_sector * 512 <= u64::MAX
    &&& partition_offset + boot.backup_boot_sector * 512 <= u64::MAX
    &&& data_area_start(boot, partition_offset) + u32::MAX * boot.sectors_per_cluster * 512
        + 1048576 <= u64::MAX
}

/// The largest fill level a directory reaches: a cluster holds at most
/// 255 * 16 entries.
pub const MAX_FILL: usize = 8192;

/// The most entries one name takes: 255 long-name entries and its short
/// entry. Long-name entries are numbered in one byte, so a name that needs
/// more is refused.
pub const MAX_BATCH: usize = 256;

/// The writer's layout state is sound: the geometry fits, clusters are handed
/// out from 3 up, fill levels stay small, and every pending batch goes to a
/// data cluster and holds at most `MAX_BATCH` entries of 32 bytes.
pub open spec fn writer_wf(w: FatWriterView) -> bool {
    &&& geometry_ok(w.boot, w.partition_offset)
    &&& w.next_free >= 3
    &&& forall|d: u32| w.tracker.contains_key(d) ==> tracked_ok(#[trigger] w.tracker[d])
    &&& forall|i: int| 0 <= i < w.pending.len() ==> batch_ok(#[trigger] w.pending[i])
}

/// A recorded position continues in a data cluster at a small fill level.
pub open spec fn tracked_ok(t: (u32, usize)) -> bool {
    t.0 >= 2 && t.1 <= MAX_FILL
}

/// A pending batch goes to a data cluster and holds at most `MAX_BATCH`
/// entries of 32 bytes.
pub open spec fn batch_ok(b: (u32, Seq<Seq<u8>>)) -> bool {
    &&& b.0 >= 2
    &&& b.1.len() <= MAX_BATCH
    &&& forall|j: int| 0 <= j < b.1.len() ==> (#[trigger] b.1[j]).len() == 32
}

/// Bytes per cluster.
pub open spec fn cluster_bytes(boot: Fat32BootSector) -> int {
    boot.sectors_per_cluster * 512
}

/// Where a directory's entries continue, as last recorded: its last
/// cluster and the next free index there.
pub open spec fn tracker_lookup(t: Map<u32, (u32, usize)>, dir: u32) -> Option<(u32, usize)> {
    if t.contains_key(dir) {
        Some(t[dir])
    } else {
        None
    }
}

/// Where new entries of a directory go when none were placed yet: after
/// "." and ".." except in the root directory.
pub open spec fn default_index(cluster: u32) -> usize {
    if cluster == 2 {
        0
    } else {
        2
    }
}

/// The bytes of a batch of entries, one after the other.
pub open spec fn concat_entries(e: Seq<Seq<u8>>) -> Seq<u8>
    decreases e.len(),
{
    if e.len() == 0 {
        Seq::empty()
    } else {
        concat_entries(e.drop_last()) + e.last()
    }
}

/// The state of placing entries in a directory.
pub struct Placement {
    pub next_free: nat,
    pub fat_cache: Seq<(u32, u32)>,
    pub cluster: u32,
    pub index: int,
    pub writes: Seq<WriteView>,
}

/// Places one batch: when it does not fit in the rest of the current
/// cluster, a new cluster is allocated, linked after it, zeroed, and the
/// batch starts there; the batch's entries are written at the index.
pub open spec fn place_batch(
    boot: Fat32BootSector,
    partition_offset: u64,
    p: Placement,
    entries: Seq<Seq<u8>>,
) -> Placement {
    let per_cluster = cluster_bytes(boot) / 32;
    let q = if p.index + entries.len() > per_cluster {
        Placement {
            next_free: p.next_free + 1,
            fat_cache: p.fat_cache.push((p.cluster, p.next_free as u32)).push(
                (p.next_free as u32, FAT32_EOC),
            ),
            cluster: p.next_free as u32,
            index: 0,
            writes: p.writes.push(
                WriteView::Zeros(
                    cluster_start(boot, partition_offset, p.next_free as u32) as u64,
                    cluster_bytes(boot) as u64,
                ),
            ),
        }
    } else {
        p
    };
    Placement {
        index: q.index + entries.len(),
        writes: q.writes.push(
            WriteView::Bytes(
                (cluster_start(boot, partition_offset, q.cluster) + q.index * 32) as u64,
                concat_entries(entries),
            ),
        ),
        ..q
    }
}

/// The placement state of a writer continuing in `cluster` at `index`.
pub open spec fn placement_of(
    w: FatWriterView,
    cluster: u32,
    index: int,
    writes: Seq<WriteView>,
) -> Placement {
    Placement { next_free: w.next_free as nat, fat_cache: w.fat_cache, cluster, index, writes }
}

impl Placement {
    /// The same placement with another cluster counter and FAT links.
    pub open spec fn with_next_free(self, next_free: nat, fat_cache: Seq<(u32, u32)>) -> Placement {
        Placement { next_free, fat_cache, ..self }
    }
}

/// Every position found is one that was recorded.
proof fn lemma_tracker_lookup_bound(t: Map<u32, (u32, usize)>, dir: u32)
    requires
        forall|d: u32| t.contains_key(d) ==> tracked_ok(#[trigger] t[d]),
    ensures
        tracker_lookup(t, dir) matches Some(v) ==> v.0 >= 2 && v.1 <= MAX_FILL,
{
    if t.contains_key(dir) {
        assert(tracked_ok(t[dir]));
    }
}

/// Where flushing a directory starts: where its entries were last left, or
/// its first cluster at the default index.
pub open spec fn start_of(t: Map<u32, (u32, usize)>, dir: u32) -> (u32, usize) {
    match tracker_lookup(t, dir) {
        Some(v) => v,
        None => (dir, default_index(dir)),
    }
}

/// New entries take the free slots after those already written: a batch
/// goes at the current slot of the current cluster when it fits there, or
/// else at the start of a fresh cluster chained after the current one; and
/// the next batch starts right after it.
pub proof fn lemma_batch_follows(
    boot: Fat32BootSector,
    partition_offset: u64,
    p: Placement,
    entries: Seq<Seq<u8>>,
)
    ensures
        ({
            let q = place_batch(boot, partition_offset, p, entries);
            let per_cluster = cluster_bytes(boot) / 32;
            let (c, i) = if p.index + entries.len() <= per_cluster {
                (p.cluster, p.index)
            } else {
                (p.next_free as u32, 0int)
            };
            &&& q.writes.last() == WriteView::Bytes(
                (cluster_start(boot, partition_offset, c) + i * 32) as u64,
                concat_entries(entries),
            )
            &&& q.cluster == c
            &&& q.index == i + entries.len()
            &&& p.index + entries.len() > per_cluster ==> q.fat_cache == p.fat_cache.push(
                (p.cluster, c),
            ).push((c, FAT32_EOC))
            &&& p.index + entries.len() <= per_cluster ==> q.fat_cache == p.fat_cache
        }),
{
}

/// A flush records where each directory's entries now end, and the next
/// flush of that directory starts there.
pub proof fn lemma_flush_resumes(t: Map<u32, (u32, usize)>, dir: u32, cluster: u32, index: usize)
    ensures
        start_of(t.insert(dir, (cluster, index)), dir) == (cluster, index),
{
}

/// The byte offset of entry slot `i` of cluster `c`.
pub open spec fn slot_at(boot: Fat32BootSector, partition_offset: u64, c: u32, i: int) -> u64 {
    (cluster_start(boot, partition_offset, c) + i * 32) as u64
}

/// A write of entries lands after what a directory already holds: in its
/// current cluster `cluster`, at slot `index` or later and within the
/// cluster, or in a cluster numbered from `lo` (handed out by this flush)
/// up to `hi`; a cluster it zeroes is one of those new clusters.
pub open spec fn lands_after(
    boot: Fat32BootSector,
    partition_offset: u64,
    x: WriteView,
    cluster: u32,
    index: int,
    lo: nat,
    hi: nat,
) -> bool {
    match x {
        WriteView::Bytes(off, b) => {
            ||| exists|i: int|
                #![trigger slot_at(boot, partition_offset, cluster, i)]
                index <= i && i * 32 + b.len() <= cluster_bytes(boot) && off == slot_at(
                    boot,
                    partition_offset,
                    cluster,
                    i,
                )
            ||| exists|c: u32, i: int|
                #![trigger slot_at(boot, partition_offset, c, i)]
                lo <= c < hi && 0 <= i && off == slot_at(boot, partition_offset, c, i)
        },
        WriteView::Zeros(off, len) => exists|c: u32|
            #![trigger cluster_start(boot, partition_offset, c)]
            lo <= c < hi && off == cluster_start(boot, partition_offset, c) as u64 && len
                == cluster_bytes(boot),
    }
}

/// A FAT link made while appending to a directory whose chain ends at
/// `cluster`: it leaves that cluster or a new one, and leads to a new
/// cluster or ends the chain.
pub open spec fn link_after(link: (u32, u32), cluster: u32, lo: nat, hi: nat) -> bool {
    &&& (link.0 == cluster || lo <= link.0 < hi)
    &&& (link.1 == FAT32_EOC || lo <= link.1 < hi)
}

/// A batch of 32-byte entries takes 32 bytes per entry.
proof fn lemma_concat_len(e: Seq<Seq<u8>>)
    requires
        forall|j: int| 0 <= j < e.len() ==> (#[trigger] e[j]).len() == 32,
    ensures
        concat_entries(e).len() == 32 * e.len(),
    decreases e.len(),
{
    if e.len() > 0 {
        lemma_concat_len(e.drop_last());
    }
}

/// Placing a directory's batches appends: the FAT links and the writes
/// made before stay as they were; every new write lands after the
/// directory's entries (see `lands_after`) and every new link leaves its
/// last cluster or a new one (see `link_after`), the new clusters being
/// those handed out from `p.next_free` on; and the directory then ends in
/// the same cluster at a later slot, or in a new cluster.
proof fn lemma_place_parent_appends(
    boot: Fat32BootSector,
    partition_offset: u64,
    p: Placement,
    pending: Seq<(u32, Seq<Seq<u8>>)>,
    parent: u32,
    n: nat,
    hi: nat,
)
    requires
        n <= pending.len(),
        p.index >= 0,
        place_parent(boot, partition_offset, p, pending, parent, n).next_free <= hi,
        hi <= u32::MAX,
        forall|i: int| 0 <= i < pending.len() ==> batch_ok(#[trigger] pending[i]),
    ensures
        ({
            let q = place_parent(boot, partition_offset, p, pending, parent, n);
            &&& p.next_free <= q.next_free
            &&& q.index >= 0
            &&& (q.cluster == p.cluster && q.index >= p.index) || (p.next_free <= q.cluster
                < q.next_free)
            &&& q.fat_cache.len() >= p.fat_cache.len()
            &&& q.fat_cache.take(p.fat_cache.len() as int) == p.fat_cache
            &&& forall|j: int|
                p.fat_cache.len() <= j < q.fat_cache.len() ==> link_after(
                    #[trigger] q.fat_cache[j],
                    p.cluster,
                    p.next_free,
                    hi,
                )
            &&& q.writes.len() >= p.writes.len()
            &&& q.writes.take(p.writes.len() as int) == p.writes
            &&& forall|j: int|
                p.writes.len() <= j < q.writes.len() ==> lands_after(
                    boot,
                    partition_offset,
                    #[trigger] q.writes[j],
                    p.cluster,
                    p.index,
                    p.next_free,
                    hi,
                )
        }),
    decreases n,
{
    if n == 0 {
        assert(p.fat_cache.take(p.fat_cache.len() as int) =~= p.fat_cache);
        assert(p.writes.take(p.writes.len() as int) =~= p.writes);
    } else {
        lemma_place_parent_grows(boot, partition_offset, p, pending, parent, (n - 1) as nat, n);
        lemma_place_parent_appends(boot, partition_offset, p, pending, parent, (n - 1) as nat, hi);
        let b = place_parent(boot, partition_offset, p, pending, parent, (n - 1) as nat);
        let q = place_parent(boot, partition_offset, p, pending, parent, n);
        if pending[n - 1].0 == parent {
            let entries = pending[n - 1].1;
            assert(batch_ok(pending[n - 1]));
            lemma_concat_len(entries);
            let per_cluster = cluster_bytes(boot) / 32;
            if b.index + entries.len() > per_cluster {
                let c = b.next_free as u32;
                assert(c == b.next_free);
                assert(q.fat_cache == b.fat_cache.push((b.cluster, c)).push((c, FAT32_EOC)));
                assert(q.fat_cache.take(p.fat_cache.len() as int) =~= b.fat_cache.take(
                    p.fat_cache.len() as int,
                ));
                assert forall|j: int|
                    p.fat_cache.len() <= j < q.fat_cache.len() implies link_after(
                    #[trigger] q.fat_cache[j],
                    p.cluster,
                    p.next_free,
                    hi,
                ) by {
                    if j < b.fat_cache.len() {
                        assert(q.fat_cache[j] == b.fat_cache[j]);
                    }
                }
                let z = WriteView::Zeros(
                    cluster_start(boot, partition_offset, c) as u64,
                    cluster_bytes(boot) as u64,
                );
                let y = WriteView::Bytes(slot_at(boot, partition_offset, c, 0), concat_entries(entries));
                assert(q.writes == b.writes.push(z).push(y));
                assert(q.writes.take(p.writes.len() as int) =~= b.writes.take(
                    p.writes.len() as int,
                ));
                assert(lands_after(boot, partition_offset, z, p.cluster, p.index, p.next_free, hi));
                assert(lands_after(boot, partition_offset, y, p.cluster, p.index, p.next_free, hi));
                assert forall|j: int|
                    p.writes.len() <= j < q.writes.len() implies lands_after(
                    boot,
                    partition_offset,
                    #[trigger] q.writes[j],
                    p.cluster,
                    p.index,
                    p.next_free,
                    hi,
                ) by {
                    if j < b.writes.len() {
                        assert(q.writes[j] == b.writes[j]);
                    }
                }
            } else {
                let y = WriteView::Bytes(
                    slot_at(boot, partition_offset, b.cluster, b.index),
                    concat_entries(entries),
                );
                assert(q.writes == b.writes.push(y));
                assert(q.writes.take(p.writes.len() as int) =~= b.writes.take(
                    p.writes.len() as int,
                ));
                if b.cluster == p.cluster && b.index >= p.index {
                    assert(b.index * 32 + concat_entries(entries).len() <= cluster_bytes(boot)) by {
                        assert(b.index + entries.len() <= per_cluster);
                        assert(per_cluster * 32 <= cluster_bytes(boot));
                    }
                } else {
                    assert(p.next_free <= b.cluster < hi);
                }
                assert(lands_after(boot, partition_offset, y, p.cluster, p.index, p.next_free, hi));
                assert forall|j: int|
                    p.writes.len() <= j < q.writes.len() implies lands_after(
                    boot,
                    partition_offset,
                    #[trigger] q.writes[j],
                    p.cluster,
                    p.index,
                    p.next_free,
                    hi,
                ) by {
                    if j < b.writes.len() {
                        assert(q.writes[j] == b.writes[j]);
                    }
                }
            }
        }
    }
}

/// Places, in order, the batches of `pending` among the first `n` whose
/// parent is `parent`.
pub open spec fn place_parent(
    boot: Fat32BootSector,
    partition_offset: u64,
    p: Placement,
    pending: Seq<(u32, Seq<Seq<u8>>)>,
    parent: u32,
    n: nat,
) -> Placement
    decreases n,
{
    if n == 0 {
        p
    } else {
        let before = place_parent(boot, partition_offset, p, pending, parent, (n - 1) as nat);
        if pending[n - 1].0 == parent {
            place_batch(boot, partition_offset, before, pending[n - 1].1)
        } else {
            before
        }
    }
}

/// The distinct parents among the first `n` batches, by first appearance.
pub open spec fn parent_order(pending: Seq<(u32, Seq<Seq<u8>>)>, n: nat) -> Seq<u32>
    decreases n,
{
    if n == 0 {
        Seq::empty()
    } else {
        let o = parent_order(pending, (n - 1) as nat);
        if o.contains(pending[n - 1].0) {
            o
        } else {
            o.push(pending[n - 1].0)
        }
    }
}

/// The state of flushing pending entries: clusters, FAT links, fill levels
/// and writes so far.
pub struct DirFlush {
    pub next_free: nat,
    pub fat_cache: Seq<(u32, u32)>,
    pub tracker: Map<u32, (u32, usize)>,
    pub writes: Seq<WriteView>,
}

/// Flushes the directories of the first `k` parents in `order`: each
/// directory continues where its entries were last left (its last cluster
/// and the next free index there, or its first cluster at the default
/// index), and where they now end is recorded.
pub open spec fn flush_parents(
    boot: Fat32BootSector,
    partition_offset: u64,
    f: DirFlush,
    pending: Seq<(u32, Seq<Seq<u8>>)>,
    order: Seq<u32>,
    k: nat,
) -> DirFlush
    decreases k,
{
    if k == 0 {
        f
    } else {
        let g = flush_parents(boot, partition_offset, f, pending, order, (k - 1) as nat);
        let parent = order[k - 1];
        let start = start_of(g.tracker, parent);
        let p = place_parent(
            boot,
            partition_offset,
            Placement {
                next_free: g.next_free,
                fat_cache: g.fat_cache,
                cluster: start.0,
                index: start.1 as int,
                writes: g.writes,
            },
            pending,
            parent,
            pending.len(),
        );
        DirFlush {
            next_free: p.next_free,
            fat_cache: p.fat_cache,
            tracker: g.tracker.insert(parent, (p.cluster, p.index as usize)),
            writes: p.writes,
        }
    }
}

/// The result of flushing all pending entries of a writer.
pub open spec fn flush_pending_spec(w: FatWriterView) -> DirFlush {
    let order = parent_order(w.pending, w.pending.len());
    flush_parents(
        w.boot,
        w.partition_offset,
        DirFlush {
            next_free: w.next_free as nat,
            fat_cache: w.fat_cache,
            tracker: w.tracker,
            writes: Seq::empty(),
        },
        w.pending,
        order,
        order.len(),
    )
}

/// The FAT links after a flush of `w`'s pending entries extend `w`'s: those
/// made before stay, and each new one leaves the last cluster of a
/// directory with pending entries (where its entries were last left) or a
/// cluster handed out by the flush, numbered from `w.next_free` up to `hi`.
pub open spec fn links_appended(w: FatWriterView, links: Seq<(u32, u32)>, hi: nat) -> bool {
    &&& links.len() >= w.fat_cache.len()
    &&& links.take(w.fat_cache.len() as int) == w.fat_cache
    &&& forall|j: int|
        w.fat_cache.len() <= j < links.len() ==> exists|d: u32|
            #![trigger start_of(w.tracker, d)]
            parent_order(w.pending, w.pending.len()).contains(d) && link_after(
                #[trigger] links[j],
                start_of(w.tracker, d).0,
                w.next_free as nat,
                hi,
            )
}

/// Each write of a flush of `w`'s pending entries lands after the entries
/// already in the directory it belongs to (see `lands_after`): from where
/// that directory's entries were last left, or in a cluster handed out by
/// the flush, numbered from `w.next_free` up to `hi`.
pub open spec fn writes_appended(w: FatWriterView, writes: Seq<WriteView>, hi: nat) -> bool {
    forall|j: int|
        0 <= j < writes.len() ==> exists|d: u32|
            #![trigger start_of(w.tracker, d)]
            parent_order(w.pending, w.pending.len()).contains(d) && lands_after(
                w.boot,
                w.partition_offset,
                #[trigger] writes[j],
                start_of(w.tracker, d).0,
                start_of(w.tracker, d).1 as int,
                w.next_free as nat,
                hi,
            )
}

/// No directory comes twice in the order of parents.
proof fn lemma_parent_order_distinct(pending: Seq<(u32, Seq<Seq<u8>>)>, n: nat)
    requires
        n <= pending.len(),
    ensures
        forall|i: int, j: int|
            0 <= i < j < parent_order(pending, n).len() ==> parent_order(pending, n)[i]
                != parent_order(pending, n)[j],
    decreases n,
{
    if n > 0 {
        lemma_parent_order_distinct(pending, (n - 1) as nat);
        let o = parent_order(pending, (n - 1) as nat);
        if !o.contains(pending[n - 1].0) {
            assert forall|i: int, j: int|
                0 <= i < j < parent_order(pending, n).len() implies parent_order(pending, n)[i]
                != parent_order(pending, n)[j] by {
                if j == o.len() {
                    assert(parent_order(pending, n)[i] == o[i]);
                }
            }
        }
    }
}

/// Recording where another directory ends does not move this one's start.
proof fn lemma_start_of_other(t: Map<u32, (u32, usize)>, other: u32, v: (u32, usize), dir: u32)
    requires
        other != dir,
    ensures
        start_of(t.insert(other, v), dir) == start_of(t, dir),
{
}

/// Flushing the first `k` directories of the order appends to what the
/// writer held (see `lemma_flush_appends`), and leaves the start of every
/// later directory where it was.
proof fn lemma_flush_parents_appends(w: FatWriterView, k: nat, hi: nat)
    requires
        writer_wf(w),
        k <= parent_order(w.pending, w.pending.len()).len(),
        flush_parents(
            w.boot,
            w.partition_offset,
            DirFlush {
                next_free: w.next_free as nat,
                fat_cache: w.fat_cache,
                tracker: w.tracker,
                writes: Seq::empty(),
            },
            w.pending,
            parent_order(w.pending, w.pending.len()),
            k,
        ).next_free <= hi,
        hi <= u32::MAX,
    ensures
        ({
            let order = parent_order(w.pending, w.pending.len());
            let g = flush_parents(
                w.boot,
                w.partition_offset,
                DirFlush {
                    next_free: w.next_free as nat,
                    fat_cache: w.fat_cache,
                    tracker: w.tracker,
                    writes: Seq::empty(),
                },
                w.pending,
                order,
                k,
            );
            &&& w.next_free <= g.next_free
            &&& links_appended(w, g.fat_cache, hi)
            &&& writes_appended(w, g.writes, hi)
            &&& forall|i: int| k <= i < order.len() ==> start_of(g.tracker, #[trigger] order[i])
                == start_of(w.tracker, order[i])
        }),
    decreases k,
{
    let order = parent_order(w.pending, w.pending.len());
    let f0 = DirFlush {
        next_free: w.next_free as nat,
        fat_cache: w.fat_cache,
        tracker: w.tracker,
        writes: Seq::empty(),
    };
    lemma_parent_order_distinct(w.pending, w.pending.len());
    if k == 0 {
        assert(w.fat_cache.take(w.fat_cache.len() as int) =~= w.fat_cache);
    } else {
        lemma_flush_parents_grows(w.boot, w.partition_offset, f0, w.pending, order, (k - 1) as nat, k);
        lemma_flush_parents_appends(w, (k - 1) as nat, hi);
        let g = flush_parents(w.boot, w.partition_offset, f0, w.pending, order, (k - 1) as nat);
        let h = flush_parents(w.boot, w.partition_offset, f0, w.pending, order, k);
        let d = order[k - 1];
        let start = start_of(g.tracker, d);
        assert(start == start_of(w.tracker, d));
        assert(order.contains(d));
        let p = Placement {
            next_free: g.next_free,
            fat_cache: g.fat_cache,
            cluster: start.0,
            index: start.1 as int,
            writes: g.writes,
        };
        lemma_place_parent_appends(
            w.boot,
            w.partition_offset,
            p,
            w.pending,
            d,
            w.pending.len(),
            hi,
        );
        let q = place_parent(w.boot, w.partition_offset, p, w.pending, d, w.pending.len());
        assert(h.fat_cache == q.fat_cache);
        assert(h.writes == q.writes);
        assert(h.fat_cache.take(w.fat_cache.len() as int) =~= g.fat_cache.take(
            w.fat_cache.len() as int,
        )) by {
            assert forall|j: int| 0 <= j < w.fat_cache.len() implies h.fat_cache[j]
                == g.fat_cache[j] by {
                assert(q.fat_cache.take(g.fat_cache.len() as int)[j] == g.fat_cache[j]);
            }
        }
        assert forall|j: int| w.fat_cache.len() <= j < h.fat_cache.len() implies exists|e: u32|
            #![trigger start_of(w.tracker, e)]
            order.contains(e) && link_after(
                #[trigger] h.fat_cache[j],
                start_of(w.tracker, e).0,
                w.next_free as nat,
                hi,
            ) by {
            if j < g.fat_cache.len() {
                assert(q.fat_cache.take(g.fat_cache.len() as int)[j] == g.fat_cache[j]);
                assert(h.fat_cache[j] == g.fat_cache[j]);
            } else {
                assert(link_after(h.fat_cache[j], start.0, g.next_free, hi));
                assert(link_after(h.fat_cache[j], start_of(w.tracker, d).0, w.next_free as nat, hi));
            }
        }
        assert forall|j: int| 0 <= j < h.writes.len() implies exists|e: u32|
            #![trigger start_of(w.tracker, e)]
            order.contains(e) && lands_after(
                w.boot,
                w.partition_offset,
                #[trigger] h.writes[j],
                start_of(w.tracker, e).0,
                start_of(w.tracker, e).1 as int,
                w.next_free as nat,
                hi,
            ) by {
            if j < g.writes.len() {
                assert(q.writes.take(g.writes.len() as int)[j] == g.writes[j]);
                assert(h.writes[j] == g.writes[j]);
            } else {
                let x = h.writes[j];
                assert(lands_after(w.boot, w.partition_offset, x, start.0, start.1 as int, g.next_free, hi));
                assert(lands_after(
                    w.boot,
                    w.partition_offset,
                    x,
                    start_of(w.tracker, d).0,
                    start_of(w.tracker, d).1 as int,
                    w.next_free as nat,
                    hi,
                ));
            }
        }
        assert forall|i: int| k <= i < order.len() implies start_of(h.tracker, #[trigger] order[i])
            == start_of(w.tracker, order[i]) by {
            assert(order[i] != d);
            lemma_start_of_other(g.tracker, d, (q.cluster, q.index as usize), order[i]);
        }
    }
}

/// A later flush appends to what is on the volume: the FAT links made
/// before are kept (a directory's chain stays linked), and each entry it
/// writes goes to a free slot after its directory's earlier entries, in
/// the cluster where they end from the slot where they stopped (for a
/// directory not flushed before, its first cluster after "." and ".."),
/// within that cluster, or else in a cluster handed out by this flush,
/// numbered from the writer's next free cluster up; only such new clusters
/// are zeroed, and every new link leaves a directory's last cluster or a
/// new one. So no entry written before is overwritten.
pub proof fn lemma_flush_appends(w: FatWriterView)
    requires
        writer_wf(w),
        flush_pending_spec(w).next_free <= u32::MAX,
    ensures
        links_appended(w, flush_pending_spec(w).fat_cache, flush_pending_spec(w).next_free),
        writes_appended(w, flush_pending_spec(w).writes, flush_pending_spec(w).next_free),
{
    let order = parent_order(w.pending, w.pending.len());
    let g = flush_parents(
        w.boot,
        w.partition_offset,
        DirFlush {
            next_free: w.next_free as nat,
            fat_cache: w.fat_cache,
            tracker: w.tracker,
            writes: Seq::empty(),
        },
        w.pending,
        order,
        order.len(),
    );
    assert(flush_pending_spec(w) == g);
    lemma_flush_parents_appends(w, order.len(), flush_pending_spec(w).next_free);
}

/// A writer can lay out its volume: the geometry fits (see
/// `geometry_ok`), clusters are handed out from 3 up, the partition starts
/// in the first quarter of the 64-bit range, the FATs' sectors number at
/// most `u64::MAX / 1024`, and nothing is cached or pending yet.
pub open spec fn layout_ok(w: FatWriterView) -> bool {
    &&& geometry_ok(w.boot, w.partition_offset)
    &&& w.next_free >= 3
    &&& w.partition_offset <= u64::MAX / 4
    &&& w.boot.fat_count * w.boot.sectors_per_fat <= u64::MAX / 1024
    &&& w.tracker == Map::<u32, (u32, usize)>::empty()
    &&& w.pending.len() == 0
}

impl Fat32Writer {
    /// The layout state is sound.
    pub open spec fn wf(&self) -> bool {
        writer_wf(self@)
    }

    /// Whether the volume can be laid out from this state (see
    /// `layout_ok`), for a caller that must check it.
    pub fn layout_fits(&self) -> (r: bool)
        ensures
            r == layout_ok(self@),
            r ==> self.wf(),
    {
        let bs = self.formatter.boot_sector();
        let off = self.formatter.partition_offset();
        if bs.sectors_per_cluster < 1 || bs.sectors_per_fat < 1 {
            return false;
        }
        if self.formatter.next_cluster() < 3 {
            return false;
        }
        if off > u64::MAX / 4 {
            return false;
        }
        let fsinfo = bs.fsinfo_sector as u64 * 512;
        let backup = bs.backup_boot_sector as u64 * 512;
        let reserved = bs.reserved_sectors as u64 * 512;
        proof {
            assert(bs.fat_count as u64 * bs.sectors_per_fat as u64 <= 255 * 0xFFFF_FFFFu64) by (nonlinear_arith)
                requires
                    bs.fat_count <= 255,
                    bs.sectors_per_fat <= 0xFFFF_FFFFu32,
            ;
            assert(0xFFFF_FFFFu64 * bs.sectors_per_cluster as u64 * 512 <= 0xFFFF_FFFFu64 * 255
                * 512) by (nonlinear_arith)
                requires
                    bs.sectors_per_cluster <= 255,
            ;
        }
        let fats = bs.fat_count as u64 * bs.sectors_per_fat as u64;
        if fats > u64::MAX / 1024 {
            return false;
        }
        let clusters_span = 0xFFFF_FFFFu64 * bs.sectors_per_cluster as u64 * 512;
        let head = off as u128 + reserved as u128 + fats as u128 * 512 + clusters_span as u128
            + 1048576;
        if head > u64::MAX as u128 || off as u128 + fsinfo as u128 > u64::MAX as u128 || off as u128
            + backup as u128 > u64::MAX as u128 {
            return false;
        }
        if !self.dir_entry_tracker.is_empty() || self.pending_dir_entries.len() > 0 {
            return false;
        }
        proof {
            assert(self@.tracker =~= Map::<u32, (u32, usize)>::empty());
            assert(self@.pending.len() == 0);
            assert(bs.fat_count * bs.sectors_per_fat * 512 == fats * 512) by (nonlinear_arith)
                requires
                    fats == bs.fat_count * bs.sectors_per_fat,
            ;
            assert(u32::MAX * bs.sectors_per_cluster * 512 == clusters_span) by (nonlinear_arith)
                requires
                    clusters_span == 0xFFFF_FFFFu64 * bs.sectors_per_cluster * 512,
            ;
        }
        true
    }

    /// Create a new FAT32 writer over a formatter; nothing is cached or
    /// pending.
    pub fn new(formatter: Fat32Formatter) -> (r: Self)
        ensures
            r@.boot == formatter.boot(),
            r@.partition_offset == formatter.offset(),
            r@.next_free == formatter.next_free(),
            r@.fat_cache == Seq::<(u32, u32)>::empty(),
            r@.tracker == Map::<u32, (u32, usize)>::empty(),
            r@.pending == Seq::<(u32, Seq<Seq<u8>>)>::empty(),
            r.cancel() is None,
    {
        let r = Fat32Writer {
            formatter,
            fat_cache: Vec::new(),
            cancel_handle: None,
            dir_entry_tracker: HashMap::new(),
            pending_dir_entries: Vec::new(),
        };
        assert(r@.pending =~= Seq::<(u32, Seq<Seq<u8>>)>::empty());
        r
    }

    /// The cancellation handle.
    pub closed spec fn cancel(&self) -> Option<Arc<AtomicBool>> {
        self.cancel_handle
    }

    /// Set cancellation handle.
    pub fn set_cancel_handle(&mut self, handle: Arc<AtomicBool>)
        ensures
            final(self)@ == old(self)@,
            final(self).cancel() == Some(handle),
    {
        self.cancel_handle = Some(handle);
    }

    /// The writes that format the partition.
    pub fn format(&self) -> (r: Vec<DiskWrite>)
        requires
            self.wf(),
        ensures
            r@.len() == 4 + 2 * self@.boot.fat_count,
            forall|i: int|
                0 <= i < r@.len() ==> #[trigger] r@[i]@ == format_writes_spec(
                    self@.boot,
                    self@.partition_offset,
                )[i],
    {
        proof {
            assert(u32::MAX * self@.boot.sectors_per_cluster * 512 >= self@.boot.sectors_per_cluster
                * 512) by (nonlinear_arith)
                requires
                    self@.boot.sectors_per_cluster >= 1,
            ;
        }
        self.formatter.format_writes()
    }

    /// Get the partition offset.
    pub fn partition_offset(&self) -> (r: u64)
        ensures
            r == self@.partition_offset,
    {
        self.formatter.partition_offset()
    }

    /// The next cluster the writer hands out.
    pub fn next_cluster(&self) -> (r: u32)
        ensures
            r == self@.next_free,
    {
        self.formatter.next_cluster()
    }

    /// Get the root cluster number.
    pub fn root_cluster(&self) -> (r: u32)
        ensures
            r == 2,
    {
        2
    }

    /// Where FAT copy `i` starts.
    pub fn fat_copy_start(&self, i: u8) -> (r: u64)
        requires
            self.wf(),
            i < self@.boot.fat_count,
        ensures
            r == self@.partition_offset + self@.boot.reserved_sectors * 512 + i
                * self@.boot.sectors_per_fat * 512,
    {
        proof {
            assert(i * self@.boot.sectors_per_fat * 512 <= self@.boot.fat_count
                * self@.boot.sectors_per_fat * 512) by (nonlinear_arith)
                requires
                    i < self@.boot.fat_count,
            ;
        }
        self.formatter.boot_sector().fat_start(self.formatter.partition_offset(), i)
    }

    /// Number of FAT copies.
    pub fn fat_count(&self) -> (r: u8)
        ensures
            r == self@.boot.fat_count,
    {
        self.formatter.boot_sector().fat_count
    }

    /// Add a directory entry (with LFN support). The entry is cached and
    /// placed when the FAT is flushed; a name that needs more than
    /// `MAX_BATCH` entries is refused and nothing changes.
    pub(crate) fn add_directory_entry(
        &mut self,
        parent_cluster: u32,
        name: &str,
        first_cluster: u32,
        attrs: FileAttributes,
        size: u32,
    ) -> (r: Result<(), Error>)
        requires
            old(self).wf(),
            parent_cluster >= 2,
        ensures
            final(self).wf(),
            r is Ok <==> name_entries(name@, first_cluster, attrs.value(), size).len() <= MAX_BATCH,
            r is Err ==> r matches Err(Error::Fat32FormatError(_)),
            r is Ok ==> final(self)@.pending == old(self)@.pending.push(
                (parent_cluster, name_entries(name@, first_cluster, attrs.value(), size)),
            ),
            r is Err ==> final(self)@.pending == old(self)@.pending,
            final(self)@.boot == old(self)@.boot,
            final(self)@.partition_offset == old(self)@.partition_offset,
            final(self)@.next_free == old(self)@.next_free,
            final(self)@.fat_cache == old(self)@.fat_cache,
            final(self)@.tracker == old(self)@.tracker,
            final(self).cancel() == old(self).cancel(),
    {
        let entries = create_lfn_entries(name, first_cluster, attrs, size);
        if entries.len() > MAX_BATCH {
            return Err(too_many_entries(entries.len()));
        }
        assert(entries_view(entries@) =~= name_entries(name@, first_cluster, attrs.value(), size));
        self.queue_entries(parent_cluster, entries);
        Ok(())
    }

    /// Queues a batch of entries for a directory.
    fn queue_entries(&mut self, parent_cluster: u32, entries: Vec<[u8; 32]>)
        requires
            old(self).wf(),
            parent_cluster >= 2,
            entries@.len() <= MAX_BATCH,
        ensures
            final(self).wf(),
            final(self)@.pending == old(self)@.pending.push(
                (parent_cluster, entries_view(entries@)),
            ),
            final(self)@.boot == old(self)@.boot,
            final(self)@.partition_offset == old(self)@.partition_offset,
            final(self)@.next_free == old(self)@.next_free,
            final(self)@.fat_cache == old(self)@.fat_cache,
            final(self)@.tracker == old(self)@.tracker,
            final(self).cancel() == old(self).cancel(),
    {
        let ghost ev = entries_view(entries@);
        assert forall|j: int| 0 <= j < ev.len() implies (#[trigger] ev[j]).len() == 32 by {
            assert(ev[j] == entries@[j]@);
        }
        assert(batch_ok((parent_cluster, ev)));
        self.pending_dir_entries.push(PendingDirEntry { parent_cluster, entries });
        assert(self@.pending =~= old(self)@.pending.push((parent_cluster, ev)));
        assert forall|i: int| 0 <= i < self@.pending.len() implies batch_ok(
            #[trigger] self@.pending[i],
        ) by {
            if i < old(self)@.pending.len() {
                assert(self@.pending[i] == old(self)@.pending[i]);
            }
        }
        assert(geometry_ok(self@.boot, self@.partition_offset));
        assert(self@.next_free >= 3);
        assert(self@.tracker == old(self)@.tracker);
        assert(writer_wf(self@));
    }
}

/// The error for a name that needs more directory entries than one name may
/// take.
fn too_many_entries(n: usize) -> (r: Error)
    ensures
        r matches Error::Fat32FormatError(_),
{
    let mut msg = string_of("File name needs too many directory entries: ");
    push_decimal(&mut msg, n as u64);
    Error::Fat32FormatError(msg)
}

impl Fat32Writer {
    /// Where a directory's entries continue, as last recorded.
    fn lookup_tracker(&self, cluster: u32) -> (r: Option<(u32, usize)>)
        ensures
            r == tracker_lookup(self@.tracker, cluster),
    {
        broadcast use vstd::std_specs::hash::group_hash_axioms;

        match self.dir_entry_tracker.get(&cluster) {
            Some(v) => Some(*v),
            None => None,
        }
    }

    /// Create a directory: allocates its cluster, ends its chain, writes its
    /// "." and ".." entries ("..": cluster 0 for the root) followed by zeros,
    /// records it as holding two entries, and queues its entry in the parent.
    /// A name that needs more than `MAX_BATCH` entries is refused before
    /// anything changes.
    pub fn create_directory(&mut self, name: &str, parent_cluster: u32) -> (r: Result<
        (u32, DiskWrite),
        Error,
    >)
        requires
            old(self).wf(),
            old(self)@.next_free < u32::MAX,
            parent_cluster >= 2,
        ensures
            final(self).wf(),
            r is Ok <==> name_entries(name@, old(self)@.next_free, 0x10, 0).len() <= MAX_BATCH,
            r is Err ==> r matches Err(Error::Fat32FormatError(_)),
            r is Err ==> final(self)@ == old(self)@,
            r matches Ok(v) ==> v.0 == old(self)@.next_free,
            r matches Ok(v) ==> final(self)@.next_free == old(self)@.next_free + 1,
            r matches Ok(v) ==> final(self)@.fat_cache == old(self)@.fat_cache.push(
                (v.0, FAT32_EOC),
            ),
            r matches Ok(v) ==> v.1@ == WriteView::Bytes(
                cluster_start(old(self)@.boot, old(self)@.partition_offset, v.0) as u64,
                dot_entry_image(v.0) + dotdot_entry_image(parent_cluster) + zeros(
                    (cluster_bytes(old(self)@.boot) - 64) as nat,
                ),
            ),
            r matches Ok(v) ==> final(self)@.tracker == old(self)@.tracker.insert(v.0, (v.0, 2usize)),
            r matches Ok(v) ==> final(self)@.pending == old(self)@.pending.push(
                (parent_cluster, name_entries(name@, v.0, 0x10, 0)),
            ),
            final(self)@.boot == old(self)@.boot,
            final(self)@.partition_offset == old(self)@.partition_offset,
            final(self).cancel() == old(self).cancel(),
    {
        let dir_cluster = self.formatter.next_cluster();
        let entries = create_lfn_entries(name, dir_cluster, FileAttributes::directory(), 0);
        if entries.len() > MAX_BATCH {
            return Err(too_many_entries(entries.len()));
        }
        let dir_cluster = self.formatter.allocate_cluster();
        self.fat_cache.push((dir_cluster, FAT32_EOC));
        proof {
            assert(u32::MAX * self@.boot.sectors_per_cluster * 512 >= (dir_cluster - 2)
                * self@.boot.sectors_per_cluster * 512) by (nonlinear_arith)
                requires
                    dir_cluster <= u32::MAX,
                    dir_cluster >= 2,
            ;
        }
        let offset = self.formatter.boot_sector().cluster_offset(
            self.formatter.partition_offset(),
            dir_cluster,
        );
        let dot_name: [u8; 11] = [0x2E, 0x20, 0x20, 0x20, 0x20, 0x20, 0x20, 0x20, 0x20, 0x20, 0x20];
        let dotdot_name: [u8; 11] = [0x2E, 0x2E, 0x20, 0x20, 0x20, 0x20, 0x20, 0x20, 0x20, 0x20, 0x20];
        assert(dot_name@ =~= seq![0x2Eu8, 0x20, 0x20, 0x20, 0x20, 0x20, 0x20, 0x20, 0x20, 0x20, 0x20]);
        assert(dotdot_name@ =~= seq![0x2Eu8, 0x2E, 0x20, 0x20, 0x20, 0x20, 0x20, 0x20, 0x20, 0x20, 0x20]);
        let dot_entry = create_dir_entry_raw(&dot_name, dir_cluster, FileAttributes::directory(), 0);
        let dotdot_cluster = if parent_cluster == 2 {
            0
        } else {
            parent_cluster
        };
        let dotdot_entry = create_dir_entry_raw(
            &dotdot_name,
            dotdot_cluster,
            FileAttributes::directory(),
            0,
        );
        let mut data: Vec<u8> = Vec::new();
        push_all(&mut data, dot_entry.as_slice());
        push_all(&mut data, dotdot_entry.as_slice());
        let remaining = self.formatter.boot_sector().bytes_per_cluster() as usize - 64;
        push_zeros(&mut data, remaining);
        self.dir_entry_tracker.insert(dir_cluster, (dir_cluster, 2));
        proof {
            broadcast use vstd::std_specs::hash::group_hash_axioms;

            assert(self@.tracker == old(self)@.tracker.insert(dir_cluster, (dir_cluster, 2usize)));
            assert forall|d: u32| self@.tracker.contains_key(d) implies tracked_ok(
                #[trigger] self@.tracker[d],
            ) by {
                if d != dir_cluster {
                    assert(old(self)@.tracker.contains_key(d));
                }
            }
        }
        assert(entries_view(entries@) =~= name_entries(name@, dir_cluster, 0x10, 0));
        assert(self@.pending == old(self)@.pending);
        assert(geometry_ok(self@.boot, self@.partition_offset));
        assert(writer_wf(self@));
        self.queue_entries(parent_cluster, entries);
        Ok((dir_cluster, DiskWrite::Bytes { offset, data }))
    }
}

/// The "." entry of a directory.
pub open spec fn dot_entry_image(cluster: u32) -> Seq<u8> {
    raw_entry_image(
        seq![0x2Eu8, 0x20, 0x20, 0x20, 0x20, 0x20, 0x20, 0x20, 0x20, 0x20, 0x20],
        cluster,
        0x10,
        0,
    )
}

/// The ".." entry of a directory whose parent is `parent` (the root is
/// recorded as cluster 0).
pub open spec fn dotdot_entry_image(parent: u32) -> Seq<u8> {
    raw_entry_image(
        seq![0x2Eu8, 0x2E, 0x20, 0x20, 0x20, 0x20, 0x20, 0x20, 0x20, 0x20, 0x20],
        if parent == 2 {
            0
        } else {
            parent
        },
        0x10,
        0,
    )
}


/// The clusters placing never lowers: placing the batches of a directory
/// only hands out more clusters.
proof fn lemma_place_parent_grows(
    boot: Fat32BootSector,
    partition_offset: u64,
    p: Placement,
    pending: Seq<(u32, Seq<Seq<u8>>)>,
    parent: u32,
    n1: nat,
    n2: nat,
)
    requires
        n1 <= n2,
    ensures
        place_parent(boot, partition_offset, p, pending, parent, n1).next_free <= place_parent(
            boot,
            partition_offset,
            p,
            pending,
            parent,
            n2,
        ).next_free,
    decreases n2,
{
    if n1 < n2 {
        lemma_place_parent_grows(boot, partition_offset, p, pending, parent, n1, (n2 - 1) as nat);
    }
}

/// Flushing more directories never lowers the cluster counter.
proof fn lemma_flush_parents_grows(
    boot: Fat32BootSector,
    partition_offset: u64,
    f: DirFlush,
    pending: Seq<(u32, Seq<Seq<u8>>)>,
    order: Seq<u32>,
    k1: nat,
    k2: nat,
)
    requires
        k1 <= k2,
    ensures
        flush_parents(boot, partition_offset, f, pending, order, k1).next_free <= flush_parents(
            boot,
            partition_offset,
            f,
            pending,
            order,
            k2,
        ).next_free,
    decreases k2,
{
    if k1 < k2 {
        lemma_flush_parents_grows(boot, partition_offset, f, pending, order, k1, (k2 - 1) as nat);
        let g = flush_parents(boot, partition_offset, f, pending, order, (k2 - 1) as nat);
        let parent = order[k2 - 1];
        let start = start_of(g.tracker, parent);
        lemma_place_parent_grows(
            boot,
            partition_offset,
            Placement {
                next_free: g.next_free,
                fat_cache: g.fat_cache,
                cluster: start.0,
                index: start.1 as int,
                writes: g.writes,
            },
            pending,
            parent,
            0,
            pending.len(),
        );
    }
}

/// Every directory in the order is the parent of some batch.
proof fn lemma_parent_order_parents(pending: Seq<(u32, Seq<Seq<u8>>)>, n: nat)
    requires
        n <= pending.len(),
        forall|i: int| 0 <= i < pending.len() ==> batch_ok(#[trigger] pending[i]),
    ensures
        forall|j: int|
            0 <= j < parent_order(pending, n).len() ==> #[trigger] parent_order(pending, n)[j]
                >= 2,
    decreases n,
{
    if n > 0 {
        lemma_parent_order_parents(pending, (n - 1) as nat);
        assert(batch_ok(pending[n - 1]));
        let o = parent_order(pending, (n - 1) as nat);
        assert forall|j: int| 0 <= j < parent_order(pending, n).len() implies #[trigger] parent_order(
            pending,
            n,
        )[j] >= 2 by {
            if j < o.len() {
                assert(parent_order(pending, n)[j] == o[j]);
            }
        }
    }
}

/// The parents of the batches, in order of first appearance.
fn parent_order_of(pending: &Vec<PendingDirEntry>) -> (r: Vec<u32>)
    ensures
        r@ == parent_order(
            pending@.map_values(|p: PendingDirEntry| pending_view(p)),
            pending@.len(),
        ),
{
    let ghost pv = pending@.map_values(|p: PendingDirEntry| pending_view(p));
    let mut order: Vec<u32> = Vec::new();
    let mut n: usize = 0;
    while n < pending.len()
        invariant
            n <= pending@.len(),
            pv == pending@.map_values(|p: PendingDirEntry| pending_view(p)),
            order@ == parent_order(pv, n as nat),
        decreases pending@.len() - n,
    {
        let c = pending[n].parent_cluster;
        assert(pv[n as int].0 == c);
        let mut found = false;
        let mut j: usize = 0;
        while j < order.len()
            invariant
                j <= order@.len(),
                found <==> exists|t: int| 0 <= t < j && order@[t] == c,
            decreases order@.len() - j,
        {
            if order[j] == c {
                found = true;
            }
            j = j + 1;
        }
        assert(found <==> order@.contains(c));
        if !found {
            order.push(c);
        }
        n = n + 1;
    }
    order
}

/// The bytes of a batch of entries, one after the other.
fn entry_bytes(entries: &Vec<[u8; 32]>) -> (r: Vec<u8>)
    ensures
        r@ == concat_entries(entries_view(entries@)),
{
    let mut v: Vec<u8> = Vec::new();
    let mut i: usize = 0;
    while i < entries.len()
        invariant
            i <= entries@.len(),
            v@ == concat_entries(entries_view(entries@.take(i as int))),
        decreases entries@.len() - i,
    {
        assert(entries_view(entries@.take(i + 1)).drop_last() =~= entries_view(
            entries@.take(i as int),
        ));
        assert(entries_view(entries@.take(i + 1)).last() == entries@[i as int]@);
        push_all(&mut v, entries[i].as_slice());
        i = i + 1;
    }
    assert(entries@.take(entries@.len() as int) =~= entries@);
    v
}

/// The error for a volume whose cluster numbers ran out.
fn out_of_clusters() -> (r: Error)
    ensures
        r matches Error::ClusterAllocationError(_),
{
    Error::ClusterAllocationError(string_of("No cluster numbers left to allocate"))
}

impl Fat32Writer {
    /// Places one batch of entries in a directory (see `place_batch`);
    /// refused, with nothing allocated, when it needs a cluster and none is
    /// left.
    fn place_entries(
        &mut self,
        writes: &mut Vec<DiskWrite>,
        cluster: u32,
        index: usize,
        entries: &Vec<[u8; 32]>,
    ) -> (r: Result<(u32, usize), Error>)
        requires
            old(self).wf(),
            cluster >= 2,
            index <= MAX_FILL,
            entries@.len() <= MAX_BATCH,
        ensures
            r is Err ==> r matches Err(Error::ClusterAllocationError(_)),
            r is Err ==> place_batch(
                old(self)@.boot,
                old(self)@.partition_offset,
                placement_of(old(self)@, cluster, index as int, writes_view(old(writes)@)),
                entries_view(entries@),
            ).next_free > u32::MAX,
            r matches Ok(v) ==> placement_of(
                final(self)@,
                v.0,
                v.1 as int,
                writes_view(final(writes)@),
            ) == place_batch(
                old(self)@.boot,
                old(self)@.partition_offset,
                placement_of(old(self)@, cluster, index as int, writes_view(old(writes)@)),
                entries_view(entries@),
            ),
            r matches Ok(v) ==> v.0 >= 2 && v.1 <= 4080,
            final(self)@.boot == old(self)@.boot,
            final(self)@.partition_offset == old(self)@.partition_offset,
            final(self)@.tracker == old(self)@.tracker,
            final(self)@.pending == old(self)@.pending,
            final(self).cancel() == old(self).cancel(),
            final(self)@.next_free >= old(self)@.next_free,
    {
        let ghost w0 = self@;
        let bs = self.formatter.boot_sector();
        let bpc = bs.bytes_per_cluster();
        let per_cluster: usize = (bpc / 32) as usize;
        let len = entries.len();
        let mut cluster = cluster;
        let mut index = index;
        proof {
            assert(bpc <= 255 * 512);
        }
        if index + len > per_cluster {
            if self.formatter.next_cluster() == u32::MAX {
                return Err(out_of_clusters());
            }
            let new_cluster = self.formatter.allocate_cluster();
            self.fat_cache.push((cluster, new_cluster));
            self.fat_cache.push((new_cluster, FAT32_EOC));
            proof {
                assert(u32::MAX * w0.boot.sectors_per_cluster * 512 >= (new_cluster - 2)
                    * w0.boot.sectors_per_cluster * 512) by (nonlinear_arith)
                    requires
                        new_cluster <= u32::MAX,
                        new_cluster >= 2,
                ;
            }
            let zoff = self.formatter.boot_sector().cluster_offset(
                self.formatter.partition_offset(),
                new_cluster,
            );
            let ghost before = writes@;
            writes.push(DiskWrite::Zeros { offset: zoff, len: bpc as u64 });
            proof {
                lemma_writes_view_push(before, writes@.last());
                assert(writes@ =~= before.push(writes@.last()));
            }
            cluster = new_cluster;
            index = 0;
        }
        proof {
            assert(u32::MAX * w0.boot.sectors_per_cluster * 512 >= (cluster - 2)
                * w0.boot.sectors_per_cluster * 512) by (nonlinear_arith)
                requires
                    cluster <= u32::MAX,
                    cluster >= 2,
            ;
        }
        let base = self.formatter.boot_sector().cluster_offset(
            self.formatter.partition_offset(),
            cluster,
        );
        let data = entry_bytes(entries);
        let ghost before = writes@;
        writes.push(DiskWrite::Bytes { offset: base + index as u64 * 32, data });
        proof {
            lemma_writes_view_push(before, writes@.last());
            assert(writes@ =~= before.push(writes@.last()));
        }
        index = index + len;
        Ok((cluster, index))
    }
}

/// Appending a write appends its effect.
proof fn lemma_writes_view_push(v: Seq<DiskWrite>, x: DiskWrite)
    ensures
        writes_view(v.push(x)) == writes_view(v).push(x@),
{
    assert(writes_view(v.push(x)) =~= writes_view(v).push(x@));
}


impl Fat32Writer {
    /// Flush all pending directory entries: each parent directory, in order
    /// of first appearance, continues from its fill level and takes its
    /// batches in order (see `flush_pending_spec`). Refused when the volume
    /// runs out of cluster numbers.
    fn flush_pending_dir_entries(&mut self) -> (r: Result<Vec<DiskWrite>, Error>)
        requires
            old(self).wf(),
        ensures
            r is Ok <==> flush_pending_spec(old(self)@).next_free <= u32::MAX,
            r is Err ==> r matches Err(Error::ClusterAllocationError(_)),
            r matches Ok(w) ==> final(self).wf(),
            r matches Ok(w) ==> writes_view(w@) == flush_pending_spec(old(self)@).writes,
            r matches Ok(w) ==> final(self)@.next_free == flush_pending_spec(old(self)@).next_free,
            r matches Ok(w) ==> final(self)@.fat_cache == flush_pending_spec(old(self)@).fat_cache,
            r matches Ok(w) ==> final(self)@.tracker == flush_pending_spec(old(self)@).tracker,
            r matches Ok(w) ==> final(self)@.pending.len() == 0,
            final(self)@.boot == old(self)@.boot,
            final(self)@.partition_offset == old(self)@.partition_offset,
            final(self).cancel() == old(self).cancel(),
    {
        let ghost w0 = self@;
        let mut pending: Vec<PendingDirEntry> = Vec::new();
        std::mem::swap(&mut pending, &mut self.pending_dir_entries);
        let ghost pv = pending@.map_values(|p: PendingDirEntry| pending_view(p));
        assert(pv =~= w0.pending);
        let order = parent_order_of(&pending);
        proof {
            lemma_parent_order_parents(pv, pv.len());
        }
        let mut writes: Vec<DiskWrite> = Vec::new();
        let ghost f0 = DirFlush {
            next_free: w0.next_free as nat,
            fat_cache: w0.fat_cache,
            tracker: w0.tracker,
            writes: Seq::empty(),
        };
        assert(writes_view(writes@) =~= Seq::<WriteView>::empty());
        let mut k: usize = 0;
        while k < order.len()
            invariant
                k <= order@.len(),
                order@ == parent_order(pv, pv.len()),
                forall|j: int| 0 <= j < order@.len() ==> #[trigger] order@[j] >= 2,
                pv == pending@.map_values(|p: PendingDirEntry| pending_view(p)),
                pv == w0.pending,
                w0 == old(self)@,
                writer_wf(w0),
                f0 == (DirFlush {
                    next_free: w0.next_free as nat,
                    fat_cache: w0.fat_cache,
                    tracker: w0.tracker,
                    writes: Seq::empty(),
                }),
                self@.boot == w0.boot,
                self@.partition_offset == w0.partition_offset,
                self@.next_free >= w0.next_free,
                self@.pending.len() == 0,
                forall|d: u32| self@.tracker.contains_key(d) ==> tracked_ok(#[trigger] self@.tracker[d]),
                self.cancel() == old(self).cancel(),
                flush_parents(w0.boot, w0.partition_offset, f0, pv, order@, k as nat) == (DirFlush {
                    next_free: self@.next_free as nat,
                    fat_cache: self@.fat_cache,
                    tracker: self@.tracker,
                    writes: writes_view(writes@),
                }),
            decreases order@.len() - k,
        {
            let parent = order[k];
            let (start_cluster, start): (u32, usize) = match self.lookup_tracker(parent) {
                Some(v) => v,
                None => (parent, if parent == 2 {
                    0
                } else {
                    2
                }),
            };
            let ghost g = flush_parents(w0.boot, w0.partition_offset, f0, pv, order@, k as nat);
            let ghost p0 = placement_of(self@, start_cluster, start as int, writes_view(writes@));
            proof {
                lemma_tracker_lookup_bound(self@.tracker, parent);
            }
            assert(self@.pending.len() == 0);
            assert(writer_wf(self@));
            let mut cluster = start_cluster;
            let mut index = start;
            let mut n: usize = 0;
            while n < pending.len()
                invariant
                    n <= pending@.len(),
                    pv == pending@.map_values(|p: PendingDirEntry| pending_view(p)),
                    pv == w0.pending,
                    w0 == old(self)@,
                    writer_wf(w0),
                    f0 == (DirFlush {
                        next_free: w0.next_free as nat,
                        fat_cache: w0.fat_cache,
                        tracker: w0.tracker,
                        writes: Seq::empty(),
                    }),
                    self@.boot == w0.boot,
                    self@.partition_offset == w0.partition_offset,
                    self@.next_free >= w0.next_free,
                    self@.pending.len() == 0,
                    self@.tracker == g.tracker,
                    forall|d: u32| self@.tracker.contains_key(d) ==> tracked_ok(#[trigger] self@.tracker[d]),
                    self.cancel() == old(self).cancel(),
                    cluster >= 2,
                    index <= MAX_FILL,
                    k < order@.len(),
                    order@ == parent_order(pv, pv.len()),
                    parent == order@[k as int],
                    g == flush_parents(w0.boot, w0.partition_offset, f0, pv, order@, k as nat),
                    p0 == placement_of(
                        w0,
                        start_of(g.tracker, parent).0,
                        start_of(g.tracker, parent).1 as int,
                        g.writes,
                    ).with_next_free(g.next_free, g.fat_cache),
                    place_parent(w0.boot, w0.partition_offset, p0, pv, parent, n as nat)
                        == placement_of(self@, cluster, index as int, writes_view(writes@)),
                decreases pending@.len() - n,
            {
                let ghost before = placement_of(self@, cluster, index as int, writes_view(writes@));
                if pending[n].parent_cluster == parent {
                    assert(pv[n as int] == pending_view(pending@[n as int]));
                    assert(batch_ok(pv[n as int]));
                    assert(writer_wf(self@));
                    match self.place_entries(&mut writes, cluster, index, &pending[n].entries) {
                        Ok((c, i)) => {
                            cluster = c;
                            index = i;
                        },
                        Err(e) => {
                            assert(self@.boot == w0.boot);
                            assert(entries_view(pending@[n as int].entries@) == pv[n as int].1);
                            assert(place_batch(w0.boot, w0.partition_offset, before, pv[n as int].1).next_free
                                > u32::MAX);
                            assert(place_parent(w0.boot, w0.partition_offset, p0, pv, parent, (n + 1) as nat)
                                == place_batch(w0.boot, w0.partition_offset, before, pv[n as int].1));
                            proof {
                                let total = pv.len();
                                lemma_place_parent_grows(
                                    w0.boot,
                                    w0.partition_offset,
                                    p0,
                                    pv,
                                    parent,
                                    (n + 1) as nat,
                                    total,
                                );
                                lemma_flush_parents_grows(
                                    w0.boot,
                                    w0.partition_offset,
                                    f0,
                                    pv,
                                    order@,
                                    (k + 1) as nat,
                                    order@.len(),
                                );
                                assert(flush_parents(w0.boot, w0.partition_offset, f0, pv, order@, (k + 1) as nat).next_free
                                    == place_parent(w0.boot, w0.partition_offset, p0, pv, parent, total).next_free);
                                assert(flush_pending_spec(w0) == flush_parents(
                                    w0.boot,
                                    w0.partition_offset,
                                    f0,
                                    pv,
                                    order@,
                                    order@.len(),
                                ));
                            }
                            return Err(e);
                        },
                    }
                }
                n = n + 1;
            }
            let ghost p_end = placement_of(self@, cluster, index as int, writes_view(writes@));
            self.dir_entry_tracker.insert(parent, (cluster, index));
            proof {
                broadcast use vstd::std_specs::hash::group_hash_axioms;

                assert(self@.tracker == g.tracker.insert(parent, (cluster, index)));
            }
            k = k + 1;
        }
        Ok(writes)
    }
}


/// The FAT sector that holds a cluster's entry (128 entries of 4 bytes per
/// 512-byte sector).
pub open spec fn fat_sector_of(cluster: u32) -> int {
    (cluster / 128) as int
}

/// Where a cluster's entry lies within its FAT sector.
pub open spec fn fat_entry_offset(cluster: u32) -> int {
    (cluster % 128) as int * 4
}

/// The FAT sectors touched by the first `n` links, by first appearance.
pub open spec fn sector_order(cache: Seq<(u32, u32)>, n: nat) -> Seq<int>
    decreases n,
{
    if n == 0 {
        Seq::empty()
    } else {
        let o = sector_order(cache, (n - 1) as nat);
        if o.contains(fat_sector_of(cache[n - 1].0)) {
            o
        } else {
            o.push(fat_sector_of(cache[n - 1].0))
        }
    }
}

/// The updates to one FAT sector among the first `n` links, in order: the
/// entry's offset in the sector and the value it takes.
pub open spec fn sector_updates(cache: Seq<(u32, u32)>, sector: int, n: nat) -> Seq<(usize, u32)>
    decreases n,
{
    if n == 0 {
        Seq::empty()
    } else {
        let u = sector_updates(cache, sector, (n - 1) as nat);
        if fat_sector_of(cache[n - 1].0) == sector {
            u.push((fat_entry_offset(cache[n - 1].0) as usize, cache[n - 1].1))
        } else {
            u
        }
    }
}

/// A sector after its updates are applied in order: each writes its value,
/// little-endian, at its offset.
pub open spec fn patched_sector(sector: Seq<u8>, updates: Seq<(usize, u32)>) -> Seq<u8>
    decreases updates.len(),
{
    if updates.len() == 0 {
        sector
    } else {
        let s = patched_sector(sector, updates.drop_last());
        let o = updates.last().0 as int;
        s.subrange(0, o) + le32(updates.last().1) + s.subrange(o + 4, s.len() as int)
    }
}

/// The last value linked to a cluster among the first `n` links.
pub open spec fn last_link(cache: Seq<(u32, u32)>, cluster: u32, n: nat) -> Option<u32>
    decreases n,
{
    if n == 0 {
        None
    } else if cache[n - 1].0 == cluster {
        Some(cache[n - 1].1)
    } else {
        last_link(cache, cluster, (n - 1) as nat)
    }
}

/// Where FAT copy `i` starts.
pub open spec fn fat_copy_offset(boot: Fat32BootSector, partition_offset: u64, i: int) -> int {
    partition_offset + boot.reserved_sectors * 512 + i * boot.sectors_per_fat * 512
}

/// The sector patches of FAT copy `i`: one per touched sector, in order.
pub open spec fn copy_patches(
    boot: Fat32BootSector,
    partition_offset: u64,
    cache: Seq<(u32, u32)>,
    i: int,
) -> Seq<(u64, Seq<(usize, u32)>)> {
    let order = sector_order(cache, cache.len());
    Seq::new(
        order.len(),
        |j: int|
            (
                (fat_copy_offset(boot, partition_offset, i) + order[j] * 512) as u64,
                sector_updates(cache, order[j], cache.len()),
            ),
    )
}

/// The sector patches of the first `n` FAT copies, copy after copy.
pub open spec fn fat_patches_spec(
    boot: Fat32BootSector,
    partition_offset: u64,
    cache: Seq<(u32, u32)>,
    n: nat,
) -> Seq<(u64, Seq<(usize, u32)>)>
    decreases n,
{
    if n == 0 {
        Seq::empty()
    } else {
        fat_patches_spec(boot, partition_offset, cache, (n - 1) as nat) + copy_patches(
            boot,
            partition_offset,
            cache,
            n - 1,
        )
    }
}

/// The FAT entries to update in one sector of one FAT copy: the sector at
/// `offset` is read, the updates applied in order (`apply_fat_updates`), and
/// the sector written back.
pub struct FatSectorPatch {
    pub offset: u64,
    pub updates: Vec<(usize, u32)>,
}

/// A patch as its sector offset and updates.
pub open spec fn patch_view(p: FatSectorPatch) -> (u64, Seq<(usize, u32)>) {
    (p.offset, p.updates@)
}

/// What flushing the FAT asks of the device: directory writes first, then
/// the FAT sector patches.
pub struct FatFlush {
    pub dir_writes: Vec<DiskWrite>,
    pub fat_patches: Vec<FatSectorPatch>,
}

/// Applies FAT updates to the bytes of a sector.
pub fn apply_fat_updates(sector: &mut Vec<u8>, updates: &Vec<(usize, u32)>)
    requires
        old(sector)@.len() == 512,
        forall|i: int| 0 <= i < updates@.len() ==> #[trigger] updates@[i].0 <= 508,
    ensures
        final(sector)@ == patched_sector(old(sector)@, updates@),
        final(sector)@.len() == 512,
{
    let mut i: usize = 0;
    while i < updates.len()
        invariant
            i <= updates@.len(),
            forall|t: int| 0 <= t < updates@.len() ==> #[trigger] updates@[t].0 <= 508,
            sector@.len() == 512,
            sector@ == patched_sector(old(sector)@, updates@.take(i as int)),
        decreases updates@.len() - i,
    {
        let (o, v) = updates[i];
        let ghost before = sector@;
        sector.set(o, v as u8);
        sector.set(o + 1, (v >> 8u32) as u8);
        sector.set(o + 2, (v >> 16u32) as u8);
        sector.set(o + 3, (v >> 24u32) as u8);
        assert(updates@.take(i + 1).drop_last() =~= updates@.take(i as int));
        assert(sector@ =~= before.subrange(0, o as int) + le32(v) + before.subrange(
            o + 4,
            before.len() as int,
        ));
        i = i + 1;
    }
    assert(updates@.take(updates@.len() as int) =~= updates@);
}

/// The FAT entry of every cluster ends up holding the last value linked to
/// it, and every other entry keeps its bytes: applying a sector's updates
/// to its bytes leaves, at each cluster's entry in that sector, the last link
/// made for the cluster, or the entry as it was when none was made.
pub proof fn lemma_fat_last_link_wins(sector: Seq<u8>, cache: Seq<(u32, u32)>, cluster: u32, n: nat)
    requires
        sector.len() == 512,
        n <= cache.len(),
    ensures
        patched_sector(sector, sector_updates(cache, fat_sector_of(cluster), n)).len() == 512,
        patched_sector(sector, sector_updates(cache, fat_sector_of(cluster), n)).subrange(
            fat_entry_offset(cluster),
            fat_entry_offset(cluster) + 4,
        ) == match last_link(cache, cluster, n) {
            Some(v) => le32(v),
            None => sector.subrange(fat_entry_offset(cluster), fat_entry_offset(cluster) + 4),
        },
    decreases n,
{
    let sec = fat_sector_of(cluster);
    let o = fat_entry_offset(cluster);
    if n > 0 {
        lemma_fat_last_link_wins(sector, cache, cluster, (n - 1) as nat);
        let u = sector_updates(cache, sec, (n - 1) as nat);
        let s = patched_sector(sector, u);
        let e = cache[n - 1];
        if fat_sector_of(e.0) == sec {
            let u2 = u.push((fat_entry_offset(e.0) as usize, e.1));
            assert(u2.drop_last() =~= u);
            let o2 = fat_entry_offset(e.0);
            let s2 = s.subrange(0, o2) + le32(e.1) + s.subrange(o2 + 4, 512);
            assert(patched_sector(sector, u2) == s2);
            if e.0 == cluster {
                assert(s2.subrange(o, o + 4) =~= le32(e.1));
            } else {
                assert(o2 != o);
                assert(o2 + 4 <= o || o + 4 <= o2);
                assert(s2.subrange(o, o + 4) =~= s.subrange(o, o + 4));
            }
        }
    }
}

/// The FAT sectors touched by the links, by first appearance.
fn sector_order_of(cache: &Vec<(u32, u32)>) -> (r: Vec<u32>)
    ensures
        r@.len() == sector_order(cache@, cache@.len()).len(),
        forall|j: int| 0 <= j < r@.len() ==> #[trigger] r@[j] as int == sector_order(cache@, cache@.len())[j],
        forall|j: int| 0 <= j < r@.len() ==> #[trigger] r@[j] <= u32::MAX / 128,
{
    let mut order: Vec<u32> = Vec::new();
    let mut n: usize = 0;
    while n < cache.len()
        invariant
            n <= cache@.len(),
            order@.len() == sector_order(cache@, n as nat).len(),
            forall|j: int| 0 <= j < order@.len() ==> #[trigger] order@[j] as int == sector_order(cache@, n as nat)[j],
            forall|j: int| 0 <= j < order@.len() ==> #[trigger] order@[j] <= u32::MAX / 128,
        decreases cache@.len() - n,
    {
        let sec = cache[n].0 / 128;
        let ghost o = sector_order(cache@, n as nat);
        let mut found = false;
        let mut j: usize = 0;
        while j < order.len()
            invariant
                j <= order@.len(),
                order@.len() == o.len(),
                forall|t: int| 0 <= t < order@.len() ==> #[trigger] order@[t] as int == o[t],
                forall|t: int| 0 <= t < order@.len() ==> #[trigger] order@[t] <= u32::MAX / 128,
                found <==> exists|t: int| 0 <= t < j && o[t] == sec as int,
            decreases order@.len() - j,
        {
            if order[j] == sec {
                found = true;
            }
            j = j + 1;
        }
        assert(found <==> o.contains(sec as int)) by {
            if o.contains(sec as int) {
                let t = choose|t: int| 0 <= t < o.len() && o[t] == sec as int;
                assert(0 <= t < j && o[t] == sec as int);
            }
        }
        if !found {
            order.push(sec);
        }
        n = n + 1;
    }
    order
}

/// The updates the links make to one FAT sector.
fn sector_updates_of(cache: &Vec<(u32, u32)>, sector: u32) -> (r: Vec<(usize, u32)>)
    ensures
        r@ == sector_updates(cache@, sector as int, cache@.len()),
{
    let mut updates: Vec<(usize, u32)> = Vec::new();
    let mut n: usize = 0;
    while n < cache.len()
        invariant
            n <= cache@.len(),
            updates@ == sector_updates(cache@, sector as int, n as nat),
        decreases cache@.len() - n,
    {
        let (c, next) = cache[n];
        if c / 128 == sector {
            updates.push((((c % 128) * 4) as usize, next));
        }
        n = n + 1;
    }
    updates
}

impl Fat32Writer {
    /// Flush FAT cache: first places all pending directory entries, then
    /// lists, for every FAT copy, the sectors the cached links touch with
    /// their updates, and empties the cache.
    pub fn flush_fat(&mut self) -> (r: Result<FatFlush, Error>)
        requires
            old(self).wf(),
        ensures
            r is Ok <==> flush_pending_spec(old(self)@).next_free <= u32::MAX,
            r is Err ==> r matches Err(Error::ClusterAllocationError(_)),
            r matches Ok(f) ==> final(self).wf(),
            r matches Ok(f) ==> writes_view(f.dir_writes@) == flush_pending_spec(old(self)@).writes,
            r matches Ok(f) ==> f.fat_patches@.map_values(|p: FatSectorPatch| patch_view(p))
                == fat_patches_spec(
                old(self)@.boot,
                old(self)@.partition_offset,
                flush_pending_spec(old(self)@).fat_cache,
                old(self)@.boot.fat_count as nat,
            ),
            r matches Ok(f) ==> final(self)@.fat_cache.len() == 0,
            r matches Ok(f) ==> final(self)@.next_free == flush_pending_spec(old(self)@).next_free,
            r matches Ok(f) ==> final(self)@.tracker == flush_pending_spec(old(self)@).tracker,
            r matches Ok(f) ==> final(self)@.pending.len() == 0,
            final(self)@.boot == old(self)@.boot,
            final(self)@.partition_offset == old(self)@.partition_offset,
            final(self).cancel() == old(self).cancel(),
    {
        let dir_writes = match self.flush_pending_dir_entries() {
            Ok(w) => w,
            Err(e) => return Err(e),
        };
        let ghost w1 = self@;
        let order = sector_order_of(&self.fat_cache);
        let ghost so = sector_order(w1.fat_cache, w1.fat_cache.len());
        let fat_count = self.formatter.boot_sector().fat_count;
        let off = self.formatter.partition_offset();
        let mut patches: Vec<FatSectorPatch> = Vec::new();
        assert(patches@.map_values(|p: FatSectorPatch| patch_view(p)) =~= fat_patches_spec(
            w1.boot,
            w1.partition_offset,
            w1.fat_cache,
            0,
        ));
        let mut i: u8 = 0;
        while i < fat_count
            invariant
                i <= fat_count,
                fat_count == w1.boot.fat_count,
                off == w1.partition_offset,
                self@ == w1,
                writer_wf(w1),
                order@.len() == so.len(),
                so == sector_order(w1.fat_cache, w1.fat_cache.len()),
                forall|j: int| 0 <= j < order@.len() ==> #[trigger] order@[j] as int == so[j],
                forall|j: int| 0 <= j < order@.len() ==> #[trigger] order@[j] <= u32::MAX / 128,
                patches@.map_values(|p: FatSectorPatch| patch_view(p)) == fat_patches_spec(
                    w1.boot,
                    w1.partition_offset,
                    w1.fat_cache,
                    i as nat,
                ),
            decreases fat_count - i,
        {
            proof {
                assert(i * w1.boot.sectors_per_fat * 512 <= w1.boot.fat_count
                    * w1.boot.sectors_per_fat * 512) by (nonlinear_arith)
                    requires
                        i < w1.boot.fat_count,
                ;
                assert(4 * u32::MAX <= u32::MAX * w1.boot.sectors_per_cluster * 512) by (nonlinear_arith)
                    requires
                        w1.boot.sectors_per_cluster >= 1,
                ;
            }
            let start = self.formatter.boot_sector().fat_start(off, i);
            let ghost base = patches@.map_values(|p: FatSectorPatch| patch_view(p));
            let ghost cp = copy_patches(w1.boot, w1.partition_offset, w1.fat_cache, i as int);
            let mut j: usize = 0;
            while j < order.len()
                invariant
                    j <= order@.len(),
                    i < fat_count,
                    fat_count == w1.boot.fat_count,
                    self@ == w1,
                    writer_wf(w1),
                    start == fat_copy_offset(w1.boot, w1.partition_offset, i as int),
                    start + 4 * u32::MAX <= u64::MAX,
                    order@.len() == so.len(),
                    so == sector_order(w1.fat_cache, w1.fat_cache.len()),
                    cp == copy_patches(w1.boot, w1.partition_offset, w1.fat_cache, i as int),
                    forall|t: int| 0 <= t < order@.len() ==> #[trigger] order@[t] as int == so[t],
                    forall|t: int| 0 <= t < order@.len() ==> #[trigger] order@[t] <= u32::MAX / 128,
                    patches@.map_values(|p: FatSectorPatch| patch_view(p)) == base + cp.take(j as int),
                decreases order@.len() - j,
            {
                let sec = order[j];
                let updates = sector_updates_of(&self.fat_cache, sec);
                assert(sec <= u32::MAX / 128);
                let ghost prev = patches@;
                patches.push(FatSectorPatch { offset: start + sec as u64 * 512, updates });
                assert(cp[j as int] == patch_view(patches@.last()));
                assert(patches@.map_values(|p: FatSectorPatch| patch_view(p)) =~= prev.map_values(
                    |p: FatSectorPatch| patch_view(p),
                ).push(patch_view(patches@.last())));
                assert(base + cp.take(j + 1) =~= (base + cp.take(j as int)).push(cp[j as int]));
                j = j + 1;
            }
            assert(cp.take(order@.len() as int) =~= cp);
            i = i + 1;
        }
        self.fat_cache = Vec::new();
        assert(self@.fat_cache.len() == 0);
        Ok(FatFlush { dir_writes, fat_patches: patches })
    }
}


impl Fat32Writer {
    /// Hands out the next cluster.
    pub(crate) fn allocate_cluster(&mut self) -> (r: u32)
        requires
            old(self).wf(),
            old(self)@.next_free < u32::MAX,
        ensures
            final(self).wf(),
            r == old(self)@.next_free,
            final(self)@.next_free == old(self)@.next_free + 1,
            final(self)@.fat_cache == old(self)@.fat_cache,
            final(self)@.tracker == old(self)@.tracker,
            final(self)@.pending == old(self)@.pending,
            final(self)@.boot == old(self)@.boot,
            final(self)@.partition_offset == old(self)@.partition_offset,
            final(self).cancel() == old(self).cancel(),
    {
        let r = self.formatter.allocate_cluster();
        assert(self@.pending == old(self)@.pending);
        assert(self@.tracker == old(self)@.tracker);
        assert(writer_wf(self@));
        r
    }

    /// Records that `next` follows `cluster` in its chain.
    pub(crate) fn link_cluster(&mut self, cluster: u32, next: u32)
        requires
            old(self).wf(),
        ensures
            final(self).wf(),
            final(self)@.fat_cache == old(self)@.fat_cache.push((cluster, next)),
            final(self)@.next_free == old(self)@.next_free,
            final(self)@.tracker == old(self)@.tracker,
            final(self)@.pending == old(self)@.pending,
            final(self)@.boot == old(self)@.boot,
            final(self)@.partition_offset == old(self)@.partition_offset,
            final(self).cancel() == old(self).cancel(),
    {
        self.fat_cache.push((cluster, next));
        assert(self@.pending == old(self)@.pending);
        assert(self@.tracker == old(self)@.tracker);
        assert(writer_wf(self@));
    }

    /// Where a data cluster starts on the device.
    pub(crate) fn cluster_offset(&self, cluster: u32) -> (r: u64)
        requires
            self.wf(),
            cluster >= 2,
        ensures
            r == cluster_start(self@.boot, self@.partition_offset, cluster),
    {
        proof {
            assert(u32::MAX * self@.boot.sectors_per_cluster * 512 >= (cluster - 2)
                * self@.boot.sectors_per_cluster * 512) by (nonlinear_arith)
                requires
                    cluster <= u32::MAX,
                    cluster >= 2,
            ;
        }
        self.formatter.boot_sector().cluster_offset(self.formatter.partition_offset(), cluster)
    }

    /// Bytes per cluster.
    pub(crate) fn bytes_per_cluster(&self) -> (r: u32)
        ensures
            r == cluster_bytes(self@.boot),
    {
        self.formatter.boot_sector().bytes_per_cluster()
    }
}


impl Fat32Writer {
    /// The cancellation handle.
    pub fn cancel_handle(&self) -> (r: Option<Arc<AtomicBool>>)
        ensures
            r == self.cancel(),
    {
        match &self.cancel_handle {
            Some(h) => Some(share_handle(h)),
            None => None,
        }
    }
}

/// Another handle on the same flag (`Arc::clone`).
#[verifier::external_body]
pub(crate) fn share_handle(h: &Arc<AtomicBool>) -> (r: Arc<AtomicBool>)
    ensures
        r == *h,
{
    Arc::clone(h)
}


impl Fat32Writer {
    /// The entry of an empty file: no cluster, archive, size 0. Returns the
    /// file's first cluster, 0.
    pub fn write_empty_file(&mut self, name: &str, parent_cluster: u32) -> (r: Result<u32, Error>)
        requires
            old(self).wf(),
            parent_cluster >= 2,
        ensures
            final(self).wf(),
            r is Ok <==> name_entries(name@, 0, 0x20, 0).len() <= MAX_BATCH,
            r is Err ==> r matches Err(Error::Fat32FormatError(_)),
            r matches Ok(c) ==> c == 0,
            r is Ok ==> final(self)@.pending == old(self)@.pending.push(
                (parent_cluster, name_entries(name@, 0, 0x20, 0)),
            ),
            r is Err ==> final(self)@ == old(self)@,
            final(self)@.boot == old(self)@.boot,
            final(self)@.partition_offset == old(self)@.partition_offset,
            final(self)@.next_free == old(self)@.next_free,
            final(self)@.fat_cache == old(self)@.fat_cache,
            final(self)@.tracker == old(self)@.tracker,
            final(self).cancel() == old(self).cancel(),
    {
        match self.add_directory_entry(parent_cluster, name, 0, FileAttributes::archive(), 0) {
            Ok(()) => Ok(0),
            Err(e) => Err(e),
        }
    }
}
} // verus!
