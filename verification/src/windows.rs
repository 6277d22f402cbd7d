//! Laying a Windows installer onto a stick: the decisions of the copy, from
//! where each file goes to how the main image is split into parts that FAT32
//! can hold.

use vstd::prelude::*;
use crate::gpt::GptPartition;
use crate::text::{
    all_ascii,
    ascii_lower,
    chars_of,
    decimal,
    lowercase,
    push_char,
    push_decimal,
    push_text,
    string_from_chars,
    string_of,
    text_eq,
    to_lowercase,
};
use crate::udf::{UdfError, udf_error_text};
use crate::wim::{SwmPart, WimError, sizes_sum, wim_error_text};
use crate::error::IoError;

verus! {

/// The most bytes a part of a split image may take.
pub const SWM_PART_LIMIT: u64 = 4000000000;

/// Errors of the Windows flashing pipeline; an I/O failure is carried as
/// its kind and the text of the underlying error.
#[derive(Debug)]
pub enum WindowsError {
    Udf(UdfError),
    Wim(WimError),
    Io(IoError),
    Fat32(String),
}

/// The text of an error of the pipeline.
pub open spec fn windows_error_text(e: WindowsError) -> Seq<char> {
    match e {
        WindowsError::Udf(u) => "UDF error: "@ + udf_error_text(u),
        WindowsError::Wim(w) => "WIM error: "@ + wim_error_text(w),
        WindowsError::Io(e) => "I/O error: "@ + e.message@,
        WindowsError::Fat32(m) => "FAT32 error: "@ + m@,
    }
}

impl WindowsError {
    /// The text of the error.
    pub fn message(&self) -> (r: String)
        ensures
            r@ == windows_error_text(*self),
    {
        match self {
            WindowsError::Udf(e) => {
                let mut s = string_of("UDF error: ");
                let m = e.message();
                push_text(&mut s, m.as_str());
                s
            },
            WindowsError::Wim(e) => {
                let mut s = string_of("WIM error: ");
                let m = e.message();
                push_text(&mut s, m.as_str());
                s
            },
            WindowsError::Io(e) => {
                let mut s = string_of("I/O error: ");
                push_text(&mut s, e.message.as_str());
                s
            },
            WindowsError::Fat32(m) => {
                let mut s = string_of("FAT32 error: ");
                push_text(&mut s, m.as_str());
                s
            },
        }
    }
}

/// Flashes a Windows installer onto a device.
pub struct WindowsFlasher<W> {
    writer: W,
}

impl<W> WindowsFlasher<W> {
    /// A flasher writing to `writer`.
    pub fn new(writer: W) -> (r: Self)
        ensures
            r.device() == writer,
    {
        WindowsFlasher { writer }
    }

    /// The device written to.
    pub closed spec fn device(&self) -> W {
        self.writer
    }

    /// The device written to.
    pub fn writer(&mut self) -> (r: &mut W)
        ensures
            *r == old(self).device(),
            final(self).device() == *final(r),
    {
        &mut self.writer
    }
}

/// Where the last '/' of a path is, if any.
pub open spec fn last_slash(p: Seq<char>) -> int
    decreases p.len(),
{
    if p.len() == 0 {
        -1
    } else if p.last() == '/' {
        p.len() - 1
    } else {
        last_slash(p.drop_last())
    }
}

/// The directory part of a path: what comes before its last '/', or
/// nothing.
pub open spec fn path_parent(p: Seq<char>) -> Seq<char> {
    if last_slash(p) < 0 {
        Seq::empty()
    } else {
        p.subrange(0, last_slash(p))
    }
}

/// The name part of a path: what comes after its last '/', or all of it.
pub open spec fn path_name(p: Seq<char>) -> Seq<char> {
    p.subrange(last_slash(p) + 1, p.len() as int)
}

/// Splits a path at its last '/' into directory and name.
pub fn split_path(path: &str) -> (r: (String, String))
    ensures
        r.0@ == path_parent(path@),
        r.1@ == path_name(path@),
{
    let cs = chars_of(path);
    let mut n = cs.len();
    assert(cs@.take(n as int) =~= cs@);
    while n > 0 && cs[n - 1] != '/'
        invariant
            n <= cs@.len(),
            cs@ == path@,
            last_slash(path@) == last_slash(cs@.take(n as int)),
        decreases n,
    {
        assert(cs@.take(n as int).drop_last() =~= cs@.take(n - 1));
        n = n - 1;
    }
    let mut parent: Vec<char> = Vec::new();
    let mut name: Vec<char> = Vec::new();
    if n == 0 {
        assert(last_slash(cs@.take(0)) == -1);
        let mut i: usize = 0;
        while i < cs.len()
            invariant
                i <= cs@.len(),
                name@ == cs@.take(i as int),
            decreases cs@.len() - i,
        {
            name.push(cs[i]);
            i = i + 1;
            assert(name@ =~= cs@.take(i as int));
        }
        assert(cs@.take(cs@.len() as int) =~= cs@);
        assert(path_name(path@) =~= cs@);
    } else {
        assert(last_slash(cs@.take(n as int)) == n - 1);
        let mut i: usize = 0;
        while i < n - 1
            invariant
                i <= n - 1,
                n <= cs@.len(),
                parent@ == cs@.take(i as int),
            decreases n - 1 - i,
        {
            parent.push(cs[i]);
            i = i + 1;
            assert(parent@ =~= cs@.take(i as int));
        }
        let mut j: usize = n;
        while j < cs.len()
            invariant
                n <= j <= cs@.len(),
                name@ == cs@.subrange(n as int, j as int),
            decreases cs@.len() - j,
        {
            name.push(cs[j]);
            j = j + 1;
            assert(name@ =~= cs@.subrange(n as int, j as int));
        }
        assert(parent@ =~= path_parent(path@));
        assert(name@ =~= path_name(path@));
    }
    (string_from_chars(parent.as_slice()), string_from_chars(name.as_slice()))
}

/// Whether a path names the main installation image, which is split:
/// "sources/install.wim" or "sources/install.esd" in any case.
pub fn is_main_image(path: &str) -> (r: bool)
    ensures
        r == (lowercase(path@) == "sources/install.wim"@ || lowercase(path@)
            == "sources/install.esd"@),
        all_ascii(path@) ==> r == (path@.map_values(|c: char| ascii_lower(c))
            == "sources/install.wim"@ || path@.map_values(|c: char| ascii_lower(c))
            == "sources/install.esd"@),
{
    let lower = to_lowercase(path);
    text_eq(lower.as_str(), "sources/install.wim") || text_eq(lower.as_str(), "sources/install.esd")
}

/// What to do with the `i`-th entry of the sorted tree.
#[derive(Debug, Clone, Copy, PartialEq, Eq, Structural)]
pub enum CopyStep {
    /// Create the directory.
    Directory(usize),
    /// Split the main installation image into parts; the progress already
    /// reported before it is given.
    MainImage(usize, u64),
    /// Write an empty file.
    Empty(usize),
    /// Copy the file's bytes; the progress already reported before it is
    /// given.
    Copy(usize, u64),
}

/// Whether a path names the main installation image (see `is_main_image`).
pub open spec fn main_image_path(path: Seq<char>) -> bool {
    lowercase(path) == "sources/install.wim"@ || lowercase(path) == "sources/install.esd"@
}

/// The bytes of the files among the first `n` entries (path, is a
/// directory, size).
pub open spec fn files_before(t: Seq<(Seq<char>, bool, u64)>, n: int) -> int
    decreases n,
{
    if n <= 0 {
        0
    } else {
        files_before(t, n - 1) + if t[n - 1].1 {
            0
        } else {
            t[n - 1].2 as int
        }
    }
}

/// The steps for the directories among the first `n` entries, in order.
pub open spec fn directory_steps(t: Seq<(Seq<char>, bool, u64)>, n: int) -> Seq<CopyStep>
    decreases n,
{
    if n <= 0 {
        Seq::empty()
    } else {
        directory_steps(t, n - 1) + if t[n - 1].1 {
            seq![CopyStep::Directory((n - 1) as usize)]
        } else {
            Seq::empty()
        }
    }
}

/// The step for the file at `i`: the main image is split, an empty file is
/// written as such, any other is copied; the progress before it is the
/// bytes of the files before it.
pub open spec fn file_step(t: Seq<(Seq<char>, bool, u64)>, i: int) -> CopyStep {
    if main_image_path(t[i].0) {
        CopyStep::MainImage(i as usize, files_before(t, i) as u64)
    } else if t[i].2 == 0 {
        CopyStep::Empty(i as usize)
    } else {
        CopyStep::Copy(i as usize, files_before(t, i) as u64)
    }
}

/// The steps for the files among the first `n` entries, in order.
pub open spec fn file_steps(t: Seq<(Seq<char>, bool, u64)>, n: int) -> Seq<CopyStep>
    decreases n,
{
    if n <= 0 {
        Seq::empty()
    } else {
        file_steps(t, n - 1) + if t[n - 1].1 {
            Seq::empty()
        } else {
            seq![file_step(t, n - 1)]
        }
    }
}

/// The entries of a tree as (path, is a directory, size).
pub open spec fn tree_view(t: Seq<(String, bool, u64)>) -> Seq<(Seq<char>, bool, u64)> {
    t.map_values(|e: (String, bool, u64)| (e.0@, e.1, e.2))
}

/// The bytes of files counted up to `n` never exceed those up to `m >= n`.
proof fn lemma_files_before_grows(t: Seq<(Seq<char>, bool, u64)>, n: int, m: int)
    requires
        0 <= n <= m,
    ensures
        0 <= files_before(t, n) <= files_before(t, m),
    decreases m,
{
    if n < m {
        lemma_files_before_grows(t, n, m - 1);
    } else if n > 0 {
        lemma_files_before_grows(t, n - 1, n - 1);
    }
}

/// How to copy a sorted tree (path, is a directory, size) onto the volume:
/// first every directory, in order, so that each parent exists before its
/// entries; then every file, in order, each with the progress already
/// reported before it.
pub fn copy_plan(tree: &Vec<(String, bool, u64)>) -> (r: Vec<CopyStep>)
    requires
        files_before(tree_view(tree@), tree@.len() as int) <= u64::MAX,
    ensures
        r@ == directory_steps(tree_view(tree@), tree@.len() as int) + file_steps(
            tree_view(tree@),
            tree@.len() as int,
        ),
{
    let ghost t = tree_view(tree@);
    let n = tree.len();
    let mut steps: Vec<CopyStep> = Vec::new();
    let mut i: usize = 0;
    while i < n
        invariant
            n == tree@.len(),
            t == tree_view(tree@),
            i <= n,
            steps@ == directory_steps(t, i as int),
        decreases n - i,
    {
        if tree[i].1 {
            steps.push(CopyStep::Directory(i));
        }
        i = i + 1;
    }
    let ghost dirs = steps@;
    let mut done: u64 = 0;
    let mut j: usize = 0;
    while j < n
        invariant
            n == tree@.len(),
            t == tree_view(tree@),
            j <= n,
            dirs == directory_steps(t, n as int),
            steps@ == dirs + file_steps(t, j as int),
            done == files_before(t, j as int),
            files_before(t, n as int) <= u64::MAX,
        decreases n - j,
    {
        let (path, is_dir, size) = (&tree[j].0, tree[j].1, tree[j].2);
        assert(t[j as int] == (path@, is_dir, size));
        if !is_dir {
            let step = if is_main_image(path.as_str()) {
                CopyStep::MainImage(j, done)
            } else if size == 0 {
                CopyStep::Empty(j)
            } else {
                CopyStep::Copy(j, done)
            };
            assert(step == file_step(t, j as int));
            steps.push(step);
            proof {
                lemma_files_before_grows(t, j + 1, n as int);
            }
            done = done + size;
        }
        assert(steps@ =~= dirs + file_steps(t, j + 1));
        j = j + 1;
    }
    steps
}

/// The file name of part `i` (from 0) of a split image: "install.swm",
/// then "install2.swm", "install3.swm", ...
pub open spec fn swm_part_name_text(i: nat) -> Seq<char> {
    if i == 0 {
        "install.swm"@
    } else {
        "install"@ + decimal(i + 1) + ".swm"@
    }
}

/// The file name of part `i` of a split image (see `swm_part_name_text`).
pub fn swm_part_name(i: u32) -> (r: String)
    ensures
        r@ == swm_part_name_text(i as nat),
{
    if i == 0 {
        return string_of("install.swm");
    }
    let mut s = string_of("install");
    push_decimal(&mut s, i as u64 + 1);
    push_text(&mut s, ".swm");
    s
}

/// The bytes a part file takes: its header, its blobs, the lookup table,
/// and in part 1 the XML data.
pub open spec fn swm_part_size(p: SwmPart, xml_size: u64) -> int {
    208 + sizes_sum(p.blobs_to_write@) + p.lookup_table@.len() * 50 + (if p.part_number == 1 {
        xml_size as int
    } else {
        0
    })
}

/// The bytes a part file takes (see `swm_part_size`).
pub fn swm_part_total_size(part: &SwmPart, xml_size: u64) -> (r: u64)
    requires
        swm_part_size(*part, xml_size) <= u64::MAX,
    ensures
        r == swm_part_size(*part, xml_size),
{
    let mut total: u64 = 208;
    let mut i: usize = 0;
    proof {
        lemma_sizes_sum_nonneg(part.blobs_to_write@);
    }
    while i < part.blobs_to_write.len()
        invariant
            i <= part.blobs_to_write@.len(),
            total == 208 + sizes_sum(part.blobs_to_write@.take(i as int)),
            swm_part_size(*part, xml_size) <= u64::MAX,
        decreases part.blobs_to_write@.len() - i,
    {
        proof {
            assert(part.blobs_to_write@.take(i + 1).drop_last() =~= part.blobs_to_write@.take(
                i as int,
            ));
            lemma_sizes_sum_prefix_le(part.blobs_to_write@, i + 1);
        }
        total = total + part.blobs_to_write[i].res_hdr.size;
        i = i + 1;
    }
    assert(part.blobs_to_write@.take(i as int) =~= part.blobs_to_write@);
    total = total + part.lookup_table.len() as u64 * 50;
    if part.part_number == 1 {
        total = total + xml_size;
    }
    total
}

proof fn lemma_sizes_sum_nonneg(blobs: Seq<crate::wim::WimLookupEntry>)
    ensures
        sizes_sum(blobs) >= 0,
    decreases blobs.len(),
{
    if blobs.len() > 0 {
        lemma_sizes_sum_nonneg(blobs.drop_last());
    }
}

proof fn lemma_sizes_sum_prefix_le(blobs: Seq<crate::wim::WimLookupEntry>, n: int)
    requires
        0 <= n <= blobs.len(),
    ensures
        sizes_sum(blobs.take(n)) <= sizes_sum(blobs),
    decreases blobs.len() - n,
{
    if n < blobs.len() {
        lemma_sizes_sum_prefix_le(blobs, n + 1);
        assert(blobs.take(n + 1).drop_last() =~= blobs.take(n));
    } else {
        assert(blobs.take(n) =~= blobs);
    }
}

/// The sum of sizes.
pub open spec fn sum_sizes(s: Seq<u64>) -> int
    decreases s.len(),
{
    if s.len() == 0 {
        0
    } else {
        sum_sizes(s.drop_last()) + s.last()
    }
}

/// The bytes of all files to copy.
pub fn tree_total_size(sizes: &Vec<u64>) -> (r: u64)
    requires
        sum_sizes(sizes@) <= u64::MAX,
    ensures
        r == sum_sizes(sizes@),
{
    let mut total: u64 = 0;
    let mut i: usize = 0;
    while i < sizes.len()
        invariant
            i <= sizes@.len(),
            total == sum_sizes(sizes@.take(i as int)),
            sum_sizes(sizes@) <= u64::MAX,
        decreases sizes@.len() - i,
    {
        proof {
            assert(sizes@.take(i + 1).drop_last() =~= sizes@.take(i as int));
            lemma_sum_sizes_prefix(sizes@, i + 1);
        }
        total = total + sizes[i];
        i = i + 1;
    }
    assert(sizes@.take(i as int) =~= sizes@);
    total
}

proof fn lemma_sum_sizes_prefix(s: Seq<u64>, n: int)
    requires
        0 <= n <= s.len(),
    ensures
        sum_sizes(s.take(n)) <= sum_sizes(s),
    decreases s.len() - n,
{
    if n < s.len() {
        lemma_sum_sizes_prefix(s, n + 1);
        assert(s.take(n + 1).drop_last() =~= s.take(n));
    } else {
        assert(s.take(n) =~= s);
    }
}

/// The cluster recorded last for a directory path, or the root's.
pub open spec fn dir_cluster_of(dirs: Seq<(Seq<char>, u32)>, path: Seq<char>, root: u32) -> u32
    decreases dirs.len(),
{
    if dirs.len() == 0 {
        root
    } else if dirs.last().0 == path {
        dirs.last().1
    } else {
        dir_cluster_of(dirs.drop_last(), path, root)
    }
}

/// The directories created so far, by path, with their clusters.
pub open spec fn dirs_view(dirs: Seq<(String, u32)>) -> Seq<(Seq<char>, u32)> {
    dirs.map_values(|d: (String, u32)| (d.0@, d.1))
}

/// The cluster of the directory at `path` (see `dir_cluster_of`).
pub fn lookup_dir_cluster(dirs: &Vec<(String, u32)>, path: &str, root: u32) -> (r: u32)
    ensures
        r == dir_cluster_of(dirs_view(dirs@), path@, root),
{
    let ghost dv = dirs_view(dirs@);
    let mut n = dirs.len();
    assert(dv.take(n as int) =~= dv);
    while n > 0
        invariant
            n <= dirs@.len(),
            dv == dirs_view(dirs@),
            dir_cluster_of(dv, path@, root) == dir_cluster_of(dv.take(n as int), path@, root),
        decreases n,
    {
        assert(dv.take(n as int).drop_last() =~= dv.take(n - 1));
        assert(dv[n - 1] == (dirs@[n - 1].0@, dirs@[n - 1].1));
        if text_eq(dirs[n - 1].0.as_str(), path) {
            return dirs[n - 1].1;
        }
        n = n - 1;
    }
    assert(dv.take(0) =~= Seq::<(Seq<char>, u32)>::empty());
    root
}

/// Where the FAT32 partition lies: its first byte and its size, from its
/// first and last (inclusive) sectors.
pub fn partition_extent(p: &GptPartition) -> (r: (u64, u64))
    requires
        p.start_lba <= p.end_lba,
        p.end_lba * 512 + 512 <= u64::MAX,
    ensures
        r.0 == p.start_lba * 512,
        r.1 == (p.end_lba - p.start_lba + 1) * 512,
{
    (p.start_lba * 512, (p.end_lba - p.start_lba + 1) * 512)
}


/// Text order: character by character, a proper prefix first (the order
/// of `str`, UTF-8 keeping the order of code points).
pub open spec fn text_le(a: Seq<char>, b: Seq<char>) -> bool
    decreases a.len(),
{
    if a.len() == 0 {
        true
    } else if b.len() == 0 {
        false
    } else if a[0] < b[0] {
        true
    } else if a[0] > b[0] {
        false
    } else {
        text_le(a.drop_first(), b.drop_first())
    }
}

/// Any two texts are ordered one way or the other.
pub proof fn lemma_text_le_total(a: Seq<char>, b: Seq<char>)
    ensures
        text_le(a, b) || text_le(b, a),
    decreases a.len(),
{
    if a.len() > 0 && b.len() > 0 && a[0] == b[0] {
        lemma_text_le_total(a.drop_first(), b.drop_first());
    }
}

/// The text order is transitive.
pub proof fn lemma_text_le_transitive(a: Seq<char>, b: Seq<char>, c: Seq<char>)
    requires
        text_le(a, b),
        text_le(b, c),
    ensures
        text_le(a, c),
    decreases a.len(),
{
    if a.len() > 0 && b.len() > 0 && c.len() > 0 && a[0] == b[0] && b[0] == c[0] {
        lemma_text_le_transitive(a.drop_first(), b.drop_first(), c.drop_first());
    }
}

/// Whether `a` comes no later than `b` in text order.
pub fn text_le_exec(a: &str, b: &str) -> (r: bool)
    ensures
        r == text_le(a@, b@),
{
    let ca = chars_of(a);
    let cb = chars_of(b);
    let mut i: usize = 0;
    assert(a@.skip(0) =~= a@);
    assert(b@.skip(0) =~= b@);
    while i < ca.len() && i < cb.len() && ca[i] == cb[i]
        invariant
            i <= ca@.len(),
            i <= cb@.len(),
            ca@ == a@,
            cb@ == b@,
            text_le(a@, b@) == text_le(a@.skip(i as int), b@.skip(i as int)),
        decreases ca@.len() - i,
    {
        assert(a@.skip(i as int).drop_first() =~= a@.skip(i + 1));
        assert(b@.skip(i as int).drop_first() =~= b@.skip(i + 1));
        i = i + 1;
    }
    if i == ca.len() {
        assert(a@.skip(i as int).len() == 0);
        return true;
    }
    if i == cb.len() {
        assert(b@.skip(i as int).len() == 0);
        return false;
    }
    assert(a@.skip(i as int)[0] == ca@[i as int]);
    assert(b@.skip(i as int)[0] == cb@[i as int]);
    ca[i] < cb[i]
}

/// The paths in order.
pub open spec fn sorted_by_path(t: Seq<(String, crate::udf::UdfEntry)>) -> bool {
    forall|i: int, j: int| 0 <= i < j < t.len() ==> text_le(#[trigger] t[i].0@, #[trigger] t[j].0@)
}

/// The tree in path order: the same entries, each path no later than the
/// next; entries with equal paths keep their order.
pub fn sort_by_path(tree: Vec<(String, crate::udf::UdfEntry)>) -> (r: Vec<(String, crate::udf::UdfEntry)>)
    ensures
        r@.to_multiset() == tree@.to_multiset(),
        sorted_by_path(r@),
{
    broadcast use vstd::seq_lib::group_to_multiset_ensures, vstd::multiset::group_multiset_axioms;
    let ghost original = tree@;
    let mut input = tree;
    let mut out: Vec<(String, crate::udf::UdfEntry)> = Vec::new();
    assert(out@.to_multiset() =~= vstd::multiset::Multiset::empty());
    while input.len() > 0
        invariant
            out@.to_multiset().add(input@.to_multiset()) == original.to_multiset(),
            sorted_by_path(out@),
        decreases input@.len(),
    {
        let ghost before_in = input@;
        let x = input.remove(0);
        assert(input@ == before_in.remove(0));
        assert(x == before_in[0]);
        proof {
            vstd::seq_lib::to_multiset_remove(before_in, 0);
        }
        assert(input@.to_multiset() == before_in.to_multiset().remove(x));
        let mut p: usize = 0;
        while p < out.len() && text_le_exec(out[p].0.as_str(), x.0.as_str())
            invariant
                p <= out@.len(),
                forall|k: int| 0 <= k < p ==> text_le(#[trigger] out@[k].0@, x.0@),
            decreases out@.len() - p,
        {
            p = p + 1;
        }
        let ghost before_out = out@;
        proof {
            if p < out@.len() {
                lemma_text_le_total(out@[p as int].0@, x.0@);
            }
        }
        out.insert(p, x);
        assert(out@ == before_out.insert(p as int, x));
        proof {
            vstd::seq_lib::to_multiset_insert(before_out, p as int, x);
        }
        assert forall|i: int, j: int| 0 <= i < j < out@.len() implies text_le(
            #[trigger] out@[i].0@,
            #[trigger] out@[j].0@,
        ) by {
            if j < p {
                assert(out@[i] == before_out[i] && out@[j] == before_out[j]);
            } else if j == p {
                assert(out@[i] == before_out[i]);
            } else if i == p {
                assert(out@[j] == before_out[j - 1]);
                if j - 1 > p {
                    assert(text_le(before_out[p as int].0@, before_out[j - 1].0@));
                    lemma_text_le_transitive(x.0@, before_out[p as int].0@, before_out[j - 1].0@);
                }
            } else if i < p {
                assert(out@[i] == before_out[i] && out@[j] == before_out[j - 1]);
            } else {
                assert(out@[i] == before_out[i - 1] && out@[j] == before_out[j - 1]);
            }
        }
        proof {
            assert(before_in.to_multiset().contains(x)) by {
                vstd::seq_lib::to_multiset_contains(before_in, x);
                assert(before_in[0] == x);
                assert(before_in.contains(x));
            }
            assert(out@.to_multiset().add(input@.to_multiset()) =~= original.to_multiset());
        }
    }
    proof {
        assert(input@.to_multiset() =~= vstd::multiset::Multiset::empty());
        assert(out@.to_multiset().add(vstd::multiset::Multiset::empty()) =~= out@.to_multiset());
    }
    out
}

} // verus!
