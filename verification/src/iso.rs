//! ISO 9660 images: recognising a Linux distribution by the markers its
//! boot area carries.

use vstd::prelude::*;
use crate::error::Error;

verus! {

/// An ISO image being read.
pub struct IsoReader<R> {
    reader: R,
}

/// An entry of an ISO directory.
pub struct IsoEntry {
    pub name: String,
    pub is_directory: bool,
}

impl<R> IsoReader<R> {
    /// Opens an image: always succeeds, reading from `reader`.
    pub fn new(reader: R) -> (r: Result<Self, Error>)
        ensures
            r matches Ok(iso) && iso.source() == reader,
    {
        Ok(IsoReader { reader })
    }

    /// The entries of the root directory; none are listed.
    pub fn list_root(&mut self) -> (r: Result<Vec<IsoEntry>, Error>)
        ensures
            r matches Ok(v) && v@.len() == 0,
    {
        Ok(Vec::new())
    }

    /// The image's source.
    pub closed spec fn source(&self) -> R {
        self.reader
    }

    /// The image's reader.
    pub fn reader(&mut self) -> (r: &mut R)
        ensures
            *r == old(self).source(),
            final(self).source() == *final(r),
    {
        &mut self.reader
    }
}

/// Whether `needle` occurs in `haystack`.
pub open spec fn contains_seq(haystack: Seq<u8>, needle: Seq<u8>) -> bool {
    exists|i: int| 0 <= i && i + needle.len() <= haystack.len() && #[trigger] haystack.subrange(
        i,
        i + needle.len(),
    ) == needle
}

/// Whether `needle` occurs in `haystack`.
pub fn contains_bytes(haystack: &[u8], needle: &[u8]) -> (r: bool)
    requires
        needle@.len() > 0,
    ensures
        r == contains_seq(haystack@, needle@),
{
    let n = needle.len();
    let h = haystack.len();
    if n > h {
        return false;
    }
    let mut i: usize = 0;
    while i <= h - n
        invariant
            n == needle@.len(),
            h == haystack@.len(),
            n <= h,
            i <= h - n + 1,
            forall|k: int| 0 <= k < i ==> #[trigger] haystack@.subrange(k, k + n) != needle@,
        decreases h - i,
    {
        let mut j: usize = 0;
        let mut same = true;
        while j < n
            invariant
                j <= n,
                i + n <= h,
                n == needle@.len(),
                h == haystack@.len(),
                same <==> forall|t: int| 0 <= t < j ==> haystack@[i + t] == needle@[t],
            decreases n - j,
        {
            if haystack[i + j] != needle[j] {
                same = false;
            }
            j = j + 1;
        }
        if same {
            assert(haystack@.subrange(i as int, i + n) =~= needle@);
            return true;
        }
        assert(haystack@.subrange(i as int, i + n) != needle@) by {
            let t = choose|t: int| 0 <= t < n && haystack@[i + t] != needle@[t];
            assert(haystack@.subrange(i as int, i + n)[t] == haystack@[i + t]);
        }
        i = i + 1;
    }
    false
}

/// The markers of a Windows installer.
pub open spec fn windows_markers() -> Seq<Seq<u8>> {
    seq![
        "SOURCES/INSTALL.WIM"@.map_values(|c: char| c as u8),
        "sources/install.wim"@.map_values(|c: char| c as u8),
        "setup.exe"@.map_values(|c: char| c as u8),
        "SETUP.EXE"@.map_values(|c: char| c as u8),
    ]
}

/// The markers of a Linux distribution's boot area.
pub open spec fn linux_markers() -> Seq<Seq<u8>> {
    seq![
        "isolinux"@.map_values(|c: char| c as u8),
        "ISOLINUX"@.map_values(|c: char| c as u8),
        "grub.cfg"@.map_values(|c: char| c as u8),
        "vmlinuz"@.map_values(|c: char| c as u8),
        "initrd"@.map_values(|c: char| c as u8),
        "casper"@.map_values(|c: char| c as u8),
        "archisoboot"@.map_values(|c: char| c as u8),
        "live-media"@.map_values(|c: char| c as u8),
    ]
}

/// Whether any of the markers occurs.
pub open spec fn any_marker(haystack: Seq<u8>, markers: Seq<Seq<u8>>) -> bool {
    exists|k: int| 0 <= k < markers.len() && contains_seq(haystack, #[trigger] markers[k])
}

/// The Primary Volume Descriptor carries "CD001" at bytes 1..6.
pub open spec fn is_iso9660(pvd: Seq<u8>) -> bool {
    pvd.subrange(1, 6) == seq![0x43u8, 0x44, 0x30, 0x30, 0x31]
}

/// A Linux ISO: an ISO 9660 image whose first bytes carry no Windows marker
/// and some Linux marker.
pub open spec fn linux_iso(pvd: Seq<u8>, haystack: Seq<u8>) -> bool {
    is_iso9660(pvd) && !any_marker(haystack, windows_markers()) && any_marker(
        haystack,
        linux_markers(),
    )
}

/// The bytes of an ASCII text.
fn ascii_bytes(t: &str) -> (r: Vec<u8>)
    requires
        forall|i: int| 0 <= i < t@.len() ==> (#[trigger] t@[i] as u32) < 0x80,
    ensures
        r@ == t@.map_values(|c: char| c as u8),
{
    let cs = crate::text::chars_of(t);
    let mut v: Vec<u8> = Vec::new();
    let mut i: usize = 0;
    while i < cs.len()
        invariant
            i <= cs@.len(),
            cs@ == t@,
            forall|k: int| 0 <= k < t@.len() ==> (#[trigger] t@[k] as u32) < 0x80,
            v@ == t@.take(i as int).map_values(|c: char| c as u8),
        decreases cs@.len() - i,
    {
        let c = cs[i];
        v.push(c as u8);
        i = i + 1;
        assert(v@ =~= t@.take(i as int).map_values(|c: char| c as u8));
    }
    assert(t@.take(cs@.len() as int) =~= t@);
    v
}

/// Whether any of the texts occurs in `haystack`.
fn any_of(haystack: &[u8], texts: &Vec<Vec<u8>>) -> (r: bool)
    requires
        forall|k: int| 0 <= k < texts@.len() ==> (#[trigger] texts@[k])@.len() > 0,
    ensures
        r == exists|k: int| 0 <= k < texts@.len() && contains_seq(haystack@, #[trigger] texts@[k]@),
{
    let mut k: usize = 0;
    while k < texts.len()
        invariant
            k <= texts@.len(),
            forall|t: int| 0 <= t < texts@.len() ==> (#[trigger] texts@[t])@.len() > 0,
            forall|t: int| 0 <= t < k ==> !contains_seq(haystack@, #[trigger] texts@[t]@),
        decreases texts@.len() - k,
    {
        if contains_bytes(haystack, texts[k].as_slice()) {
            return true;
        }
        k = k + 1;
    }
    false
}

/// The verdict on an image from its Primary Volume Descriptor (sector 16)
/// and its first bytes: an ISO 9660 image, not a Windows installer (no
/// "setup.exe" or "sources/install.wim"), with a Linux boot marker (see
/// `linux_iso`).
pub fn linux_iso_verdict(pvd: &[u8], haystack: &[u8]) -> (r: bool)
    requires
        pvd@.len() >= 6,
    ensures
        r == linux_iso(pvd@, haystack@),
{
    let cd001: [u8; 5] = [0x43, 0x44, 0x30, 0x30, 0x31];
    if pvd[1] != cd001[0] || pvd[2] != cd001[1] || pvd[3] != cd001[2] || pvd[4] != cd001[3]
        || pvd[5] != cd001[4] {
        assert(!is_iso9660(pvd@)) by {
            if is_iso9660(pvd@) {
                assert(pvd@.subrange(1, 6)[0] == pvd@[1]);
                assert(pvd@.subrange(1, 6)[1] == pvd@[2]);
                assert(pvd@.subrange(1, 6)[2] == pvd@[3]);
                assert(pvd@.subrange(1, 6)[3] == pvd@[4]);
                assert(pvd@.subrange(1, 6)[4] == pvd@[5]);
            }
        }
        return false;
    }
    assert(pvd@.subrange(1, 6) =~= seq![0x43u8, 0x44, 0x30, 0x30, 0x31]);
    proof {
        reveal_strlit("SOURCES/INSTALL.WIM");
        reveal_strlit("sources/install.wim");
        reveal_strlit("setup.exe");
        reveal_strlit("SETUP.EXE");
        reveal_strlit("isolinux");
        reveal_strlit("ISOLINUX");
        reveal_strlit("grub.cfg");
        reveal_strlit("vmlinuz");
        reveal_strlit("initrd");
        reveal_strlit("casper");
        reveal_strlit("archisoboot");
        reveal_strlit("live-media");
    }
    let mut windows: Vec<Vec<u8>> = Vec::new();
    windows.push(ascii_bytes("SOURCES/INSTALL.WIM"));
    windows.push(ascii_bytes("sources/install.wim"));
    windows.push(ascii_bytes("setup.exe"));
    windows.push(ascii_bytes("SETUP.EXE"));
    let mut linux: Vec<Vec<u8>> = Vec::new();
    linux.push(ascii_bytes("isolinux"));
    linux.push(ascii_bytes("ISOLINUX"));
    linux.push(ascii_bytes("grub.cfg"));
    linux.push(ascii_bytes("vmlinuz"));
    linux.push(ascii_bytes("initrd"));
    linux.push(ascii_bytes("casper"));
    linux.push(ascii_bytes("archisoboot"));
    linux.push(ascii_bytes("live-media"));
    assert(windows@.map_values(|v: Vec<u8>| v@) =~= windows_markers());
    assert(linux@.map_values(|v: Vec<u8>| v@) =~= linux_markers());
    let is_windows = any_of(haystack, &windows);
    assert(is_windows == any_marker(haystack@, windows_markers())) by {
        if is_windows {
            let k = choose|k: int| 0 <= k < windows@.len() && contains_seq(haystack@, #[trigger] windows@[k]@);
            assert(windows_markers()[k] == windows@[k]@);
        }
        if any_marker(haystack@, windows_markers()) {
            let k = choose|k: int| 0 <= k < windows_markers().len() && contains_seq(haystack@, #[trigger] windows_markers()[k]);
            assert(windows_markers()[k] == windows@[k]@);
        }
    }
    if is_windows {
        return false;
    }
    let is_linux = any_of(haystack, &linux);
    assert(is_linux == any_marker(haystack@, linux_markers())) by {
        if is_linux {
            let k = choose|k: int| 0 <= k < linux@.len() && contains_seq(haystack@, #[trigger] linux@[k]@);
            assert(linux_markers()[k] == linux@[k]@);
        }
        if any_marker(haystack@, linux_markers()) {
            let k = choose|k: int| 0 <= k < linux_markers().len() && contains_seq(haystack@, #[trigger] linux_markers()[k]);
            assert(linux_markers()[k] == linux@[k]@);
        }
    }
    is_linux
}

} // verus!
