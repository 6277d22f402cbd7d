//! FAT32 directory entries: 8.3 short names, long-name (LFN) entries with
//! their checksum, and the 32-byte short entry itself.

use vstd::prelude::*;
use unicode_normalization::UnicodeNormalization;
use crate::bytes::{le16, le32};
use crate::gpt::{utf16_units, encode_utf16, lemma_utf16_below_surrogates};
use crate::text::{
    all_ascii,
    ascii_upper,
    chars_of,
    is_ascii_alnum,
    ascii_alnum,
    to_uppercase,
    uppercase,
    utf8_len,
    utf8_len_exceeds,
};

verus! {

/// Attribute flags for directory entries.
#[derive(Debug, Clone, Copy)]
pub struct FileAttributes(u8);

impl FileAttributes {
    /// The attribute byte.
    pub closed spec fn value(&self) -> u8 {
        self.0
    }

    /// The attribute byte.
    pub fn bits(&self) -> (r: u8)
        ensures
            r == self.value(),
    {
        self.0
    }

    /// Read-only attribute.
    pub fn read_only() -> (r: FileAttributes)
        ensures
            r.value() == 0x01,
    {
        FileAttributes(0x01)
    }

    /// Hidden attribute.
    pub fn hidden() -> (r: FileAttributes)
        ensures
            r.value() == 0x02,
    {
        FileAttributes(0x02)
    }

    /// System attribute.
    pub fn system() -> (r: FileAttributes)
        ensures
            r.value() == 0x04,
    {
        FileAttributes(0x04)
    }

    /// Volume label attribute.
    pub fn volume_id() -> (r: FileAttributes)
        ensures
            r.value() == 0x08,
    {
        FileAttributes(0x08)
    }

    /// The directory attribute.
    pub fn directory() -> (r: FileAttributes)
        ensures
            r.value() == 0x10,
    {
        FileAttributes(0x10)
    }

    /// The archive attribute, given to files.
    pub fn archive() -> (r: FileAttributes)
        ensures
            r.value() == 0x20,
    {
        FileAttributes(0x20)
    }

    /// The attribute byte of long-name entries.
    pub fn lfn() -> (r: FileAttributes)
        ensures
            r.value() == 0x0F,
    {
        FileAttributes(0x0F)
    }
}

/// The NFC normal form of a text, as Unicode defines it.
pub uninterp spec fn nfc_form(s: Seq<char>) -> Seq<char>;

/// The NFC normal form of `s` (`UnicodeNormalization::nfc` from the
/// `unicode-normalization` crate). ASCII text is left unchanged by every
/// normalization form.
#[verifier::external_body]
fn nfc(s: &str) -> (r: String)
    ensures
        r@ == nfc_form(s@),
        all_ascii(s@) ==> r@ == s@,
{
    s.nfc().collect::<String>()
}

/// A character kept in a short name.
pub open spec fn is_sfn_char(c: char) -> bool {
    is_ascii_alnum(c) || c == '_' || c == '-'
}

/// A character that needs no long name.
pub open spec fn is_plain_name_char(c: char) -> bool {
    is_ascii_alnum(c) || c == '.' || c == '_' || c == '-'
}

/// Index of the first '.', or the length when there is none.
pub open spec fn first_dot(s: Seq<char>) -> int
    decreases s.len(),
{
    if s.len() == 0 {
        0
    } else if s[0] == '.' {
        0
    } else {
        1 + first_dot(s.drop_first())
    }
}

/// The part before the first '.'.
pub open spec fn name_base(s: Seq<char>) -> Seq<char> {
    s.take(first_dot(s))
}

/// The part after the first '.', empty without one.
pub open spec fn name_ext(s: Seq<char>) -> Seq<char> {
    if first_dot(s) < s.len() {
        s.skip(first_dot(s) + 1)
    } else {
        Seq::empty()
    }
}

/// At most the first `k` elements.
pub open spec fn capped<A>(s: Seq<A>, k: nat) -> Seq<A> {
    if s.len() <= k {
        s
    } else {
        s.take(k as int)
    }
}

/// The predicate of characters kept in short names.
pub open spec fn sfn_pred() -> spec_fn(char) -> bool {
    |c: char| is_sfn_char(c)
}

/// The short-name characters of `s`, at most `k` of them.
pub open spec fn cleaned(s: Seq<char>, k: nat) -> Seq<char> {
    capped(s.filter(sfn_pred()), k)
}

/// The 11 bytes of an 8.3 name: base left-justified in 8, extension in 3,
/// padded with spaces.
pub open spec fn sfn_image(base: Seq<char>, ext: Seq<char>) -> Seq<u8> {
    Seq::new(
        11,
        |i: int|
            if i < 8 {
                if i < base.len() {
                    base[i] as u8
                } else {
                    0x20u8
                }
            } else {
                if i - 8 < ext.len() {
                    ext[i - 8] as u8
                } else {
                    0x20u8
                }
            },
    )
}

/// The short name of a file name, and whether it also needs long-name
/// entries: it does when the name is longer than 12 bytes, its (upper-case)
/// base longer than 8 or extension longer than 3, or it holds a character
/// other than ASCII letters, digits, '.', '_' and '-'.
pub open spec fn short_name_of(name: Seq<char>) -> (Seq<u8>, bool) {
    let upper = uppercase(name);
    let base = name_base(upper);
    let ext = name_ext(upper);
    let needs_lfn = utf8_len(name) > 12 || utf8_len(base) > 8 || utf8_len(ext) > 3 || exists|i: int|
        0 <= i < name.len() && !is_plain_name_char(#[trigger] name[i]);
    (sfn_image(cleaned(base, 8), cleaned(ext, 3)), needs_lfn)
}

/// One step of the short-name checksum: rotate right by one, add the byte.
pub open spec fn checksum_step(sum: u8, b: u8) -> u8 {
    ((((sum >> 1u8) | (sum << 7u8)) as u8 as int + b as int) % 256) as u8
}

/// The checksum over the first `n` bytes of a short name.
pub open spec fn checksum_prefix(sfn: Seq<u8>, n: nat) -> u8
    decreases n,
{
    if n == 0 {
        0
    } else {
        checksum_step(checksum_prefix(sfn, (n - 1) as nat), sfn[n - 1])
    }
}

/// The checksum that long-name entries carry of their short name.
pub open spec fn sfn_checksum_of(sfn: Seq<u8>) -> u8 {
    checksum_prefix(sfn, 11)
}

/// The 32 bytes of a short directory entry: name, attributes, zeroed times,
/// the first cluster split in high and low words, and the size.
pub open spec fn raw_entry_image(sfn: Seq<u8>, first_cluster: u32, attrs: u8, size: u32) -> Seq<u8> {
    sfn + seq![attrs, 0u8, 0u8] + le16(0) + le16(0) + le16(0) + le16((first_cluster >> 16u32) as u16)
        + le16(0) + le16(0) + le16(first_cluster as u16) + le32(size)
}

/// Character `idx` of a long name: the unit, a terminating zero just past
/// the end, then 0xFFFF padding.
pub open spec fn lfn_unit(units: Seq<u16>, idx: int) -> u16 {
    if idx < units.len() {
        units[idx]
    } else if idx == units.len() {
        0
    } else {
        0xFFFF
    }
}

/// The sequence byte of long-name entry `i` of `count`: its number from 1,
/// with 0x40 on the last (the number is kept modulo 256).
pub open spec fn lfn_sequence(i: int, count: int) -> u8 {
    let n = ((i + 1) % 256) as u8;
    if i == count - 1 {
        (0x40u8 | n) as u8
    } else {
        n
    }
}

/// Long-name entry `i`: characters 13i..13i+13 in three runs around the
/// attribute byte 0x0F, the checksum and the zero cluster field.
pub open spec fn lfn_entry_image(units: Seq<u16>, i: int, count: int, checksum: u8) -> Seq<u8> {
    let s = i * 13;
    seq![lfn_sequence(i, count)] + le16(lfn_unit(units, s)) + le16(lfn_unit(units, s + 1)) + le16(
        lfn_unit(units, s + 2),
    ) + le16(lfn_unit(units, s + 3)) + le16(lfn_unit(units, s + 4)) + seq![0x0Fu8, 0u8, checksum]
        + le16(lfn_unit(units, s + 5)) + le16(lfn_unit(units, s + 6)) + le16(lfn_unit(units, s + 7))
        + le16(lfn_unit(units, s + 8)) + le16(lfn_unit(units, s + 9)) + le16(lfn_unit(units, s + 10))
        + seq![0u8, 0u8] + le16(lfn_unit(units, s + 11)) + le16(lfn_unit(units, s + 12))
}

/// The units of a long name: its NFC form in UTF-16.
pub open spec fn lfn_units(name: Seq<char>) -> Seq<u16> {
    utf16_units(nfc_form(name))
}

/// The number of long-name entries for a name: 13 characters each.
pub open spec fn lfn_count(name: Seq<char>) -> int {
    (lfn_units(name).len() as int + 12) / 13
}

/// The directory entries of a name: just the short entry when the short
/// name suffices; otherwise the long-name entries, last first, then the
/// short entry.
pub open spec fn name_entries(name: Seq<char>, first_cluster: u32, attrs: u8, size: u32) -> Seq<Seq<u8>> {
    let (sfn, needs_lfn) = short_name_of(name);
    let raw = raw_entry_image(sfn, first_cluster, attrs, size);
    if !needs_lfn {
        seq![raw]
    } else {
        let units = lfn_units(name);
        let count = lfn_count(name);
        Seq::new(
            count as nat,
            |k: int| lfn_entry_image(units, count - 1 - k, count, sfn_checksum_of(sfn)),
        ).push(raw)
    }
}

proof fn lemma_first_dot(s: Seq<char>, d: int)
    requires
        0 <= d <= s.len(),
        forall|j: int| 0 <= j < d ==> s[j] != '.',
        d == s.len() || s[d] == '.',
    ensures
        first_dot(s) == d,
    decreases d,
{
    if d > 0 {
        assert forall|j: int| 0 <= j < d - 1 implies s.drop_first()[j] != '.' by {
            assert(s.drop_first()[j] == s[j + 1]);
        }
        if d < s.len() {
            assert(s.drop_first()[d - 1] == s[d]);
        }
        lemma_first_dot(s.drop_first(), d - 1);
    }
}

/// The characters of `cs` kept in short names.
fn filter_sfn(cs: &Vec<char>) -> (r: Vec<char>)
    ensures
        r@ == cs@.filter(sfn_pred()),
{
    let mut r: Vec<char> = Vec::new();
    let mut i: usize = 0;
    proof {
        reveal_with_fuel(Seq::<char>::filter, 1);
        assert(cs@.take(0) =~= Seq::<char>::empty());
    }
    while i < cs.len()
        invariant
            i <= cs@.len(),
            r@ == cs@.take(i as int).filter(sfn_pred()),
        decreases cs@.len() - i,
    {
        let c = cs[i];
        assert(cs@.take(i + 1).drop_last() =~= cs@.take(i as int));
        assert(cs@.take(i + 1).last() == c);
        proof {
            reveal_with_fuel(Seq::<char>::filter, 1);
        }
        if ascii_alnum(c) || c == '_' || c == '-' {
            r.push(c);
        }
        i = i + 1;
    }
    assert(cs@.take(cs@.len() as int) =~= cs@);
    r
}

/// The characters of `cs` from `from` to `to`.
fn sub_chars(cs: &Vec<char>, from: usize, to: usize) -> (r: Vec<char>)
    requires
        from <= to <= cs@.len(),
    ensures
        r@ == cs@.subrange(from as int, to as int),
{
    let mut r: Vec<char> = Vec::new();
    let mut i: usize = from;
    while i < to
        invariant
            from <= i <= to,
            to <= cs@.len(),
            r@ == cs@.subrange(from as int, i as int),
        decreases to - i,
    {
        r.push(cs[i]);
        i = i + 1;
        assert(r@ =~= cs@.subrange(from as int, i as int));
    }
    r
}

/// Whether any character needs a long name.
fn has_special_char(cs: &Vec<char>) -> (r: bool)
    ensures
        r == exists|i: int| 0 <= i < cs@.len() && !is_plain_name_char(#[trigger] cs@[i]),
{
    let mut i: usize = 0;
    while i < cs.len()
        invariant
            i <= cs@.len(),
            forall|j: int| 0 <= j < i ==> is_plain_name_char(#[trigger] cs@[j]),
        decreases cs@.len() - i,
    {
        let c = cs[i];
        if !(ascii_alnum(c) || c == '.' || c == '_' || c == '-') {
            return true;
        }
        i = i + 1;
    }
    false
}

/// A byte string without its trailing spaces.
pub open spec fn trim_spaces(b: Seq<u8>) -> Seq<u8>
    decreases b.len(),
{
    if b.len() > 0 && b.last() == 0x20 {
        trim_spaces(b.drop_last())
    } else {
        b
    }
}

/// The name an 8.3 entry shows: its base (the first 8 bytes) and its
/// extension (the last 3), each without trailing spaces, joined by a '.'
/// when there is an extension.
pub open spec fn sfn_text(sfn: Seq<u8>) -> Seq<char> {
    let base = trim_spaces(sfn.subrange(0, 8));
    let ext = trim_spaces(sfn.subrange(8, 11));
    base.map_values(|b: u8| b as char) + if ext.len() > 0 {
        seq!['.'] + ext.map_values(|b: u8| b as char)
    } else {
        Seq::empty()
    }
}

/// Where the first '.' stands: none before it, and a '.' there unless it
/// is the end.
proof fn lemma_first_dot_props(s: Seq<char>)
    ensures
        0 <= first_dot(s) <= s.len(),
        forall|j: int| 0 <= j < first_dot(s) ==> s[j] != '.',
        first_dot(s) == s.len() || s[first_dot(s)] == '.',
    decreases s.len(),
{
    if s.len() > 0 && s[0] != '.' {
        lemma_first_dot_props(s.drop_first());
        assert forall|j: int| 0 <= j < first_dot(s) implies s[j] != '.' by {
            if j > 0 {
                assert(s[j] == s.drop_first()[j - 1]);
            }
        }
        if first_dot(s) < s.len() {
            assert(s[first_dot(s)] == s.drop_first()[first_dot(s) - 1]);
        }
    }
}

/// A text takes at least one UTF-8 byte per character.
proof fn lemma_utf8_len_at_least(s: Seq<char>)
    ensures
        utf8_len(s) >= s.len(),
    decreases s.len(),
{
    if s.len() > 0 {
        lemma_utf8_len_at_least(s.drop_last());
    }
}

/// Filtering short-name characters keeps a text made only of them.
proof fn lemma_filter_keeps_sfn(s: Seq<char>)
    requires
        forall|i: int| 0 <= i < s.len() ==> is_sfn_char(#[trigger] s[i]),
    ensures
        s.filter(sfn_pred()) == s,
    decreases s.len(),
{
    reveal_with_fuel(Seq::<char>::filter, 1);
    if s.len() > 0 {
        let t = s.drop_last();
        assert forall|i: int| 0 <= i < t.len() implies is_sfn_char(#[trigger] t[i]) by {
            assert(t[i] == s[i]);
        }
        lemma_filter_keeps_sfn(t);
        assert(is_sfn_char(s.last()));
        assert(t.push(s.last()) =~= s);
    }
}

/// Trailing spaces after a part that does not end in one are trimmed to
/// the part.
proof fn lemma_trim_padding(x: Seq<u8>, k: nat)
    requires
        x.len() == 0 || x.last() != 0x20,
    ensures
        trim_spaces(x + Seq::new(k, |i: int| 0x20u8)) == x,
    decreases k,
{
    let y = x + Seq::new(k, |i: int| 0x20u8);
    if k > 0 {
        assert(y.drop_last() =~= x + Seq::new((k - 1) as nat, |i: int| 0x20u8));
        lemma_trim_padding(x, (k - 1) as nat);
    } else {
        assert(y =~= x);
    }
}

/// One part of a short name (base in 8 bytes, extension in 3): a part of at
/// most `w` short-name characters reads back from its bytes.
proof fn lemma_sfn_part(sfn: Seq<u8>, at: int, w: nat, part: Seq<char>)
    requires
        part.len() <= w,
        0 <= at,
        at + w <= sfn.len(),
        forall|i: int| 0 <= i < part.len() ==> is_sfn_char(#[trigger] part[i]),
        forall|i: int| 0 <= i < w ==> #[trigger] sfn[at + i] == (if i < part.len() {
            part[i] as u8
        } else {
            0x20u8
        }),
    ensures
        trim_spaces(sfn.subrange(at, at + w)).map_values(|b: u8| b as char) == part,
{
    let bytes = part.map_values(|c: char| c as u8);
    assert forall|i: int| 0 <= i < part.len() implies (#[trigger] bytes[i]) as char == part[i]
        && bytes[i] != 0x20 by {
        let c = part[i];
        assert(is_sfn_char(c));
        assert((c as u32) < 0x80);
    }
    let padded = bytes + Seq::new((w - part.len()) as nat, |i: int| 0x20u8);
    assert forall|i: int| 0 <= i < w implies sfn.subrange(at, at + w)[i] == padded[i] by {
        assert(sfn[at + i] == (if i < part.len() {
            part[i] as u8
        } else {
            0x20u8
        }));
    }
    assert(sfn.subrange(at, at + w) =~= padded);
    lemma_trim_padding(bytes, (w - part.len()) as nat);
    assert(bytes.map_values(|b: u8| b as char) =~= part);
}

/// A short name reads back to the upper-cased name it was made from: when
/// no long-name entries are needed and the upper-cased name is made of
/// short-name characters around at most one '.', which has something after
/// it, the 8.3 entry shows exactly that name.
pub proof fn lemma_short_name_reads_back(name: Seq<char>)
    ensures
        ({
            let u = uppercase(name);
            let (sfn, needs_lfn) = short_name_of(name);
            (!needs_lfn && (forall|i: int|
                0 <= i < u.len() ==> is_sfn_char(#[trigger] u[i]) || u[i] == '.') && !name_ext(
                u,
            ).contains('.') && (first_dot(u) < u.len() ==> name_ext(u).len() > 0)) ==> sfn_text(sfn)
                == u
        }),
{
    let u = uppercase(name);
    let (sfn, needs_lfn) = short_name_of(name);
    if !needs_lfn && (forall|i: int| 0 <= i < u.len() ==> is_sfn_char(#[trigger] u[i]) || u[i] == '.')
        && !name_ext(u).contains('.') && (first_dot(u) < u.len() ==> name_ext(u).len() > 0) {
        lemma_first_dot_props(u);
        let d = first_dot(u);
        let base = name_base(u);
        let ext = name_ext(u);
        lemma_utf8_len_at_least(base);
        lemma_utf8_len_at_least(ext);
        assert forall|i: int| 0 <= i < base.len() implies is_sfn_char(#[trigger] base[i]) by {
            assert(base[i] == u[i]);
        }
        assert forall|i: int| 0 <= i < ext.len() implies is_sfn_char(#[trigger] ext[i]) by {
            assert(ext[i] == u[d + 1 + i]);
            if !is_sfn_char(ext[i]) {
                assert(ext.contains(ext[i]));
            }
        }
        lemma_filter_keeps_sfn(base);
        lemma_filter_keeps_sfn(ext);
        assert(cleaned(base, 8) == base);
        assert(cleaned(ext, 3) == ext);
        lemma_sfn_part(sfn, 0, 8, base);
        lemma_sfn_part(sfn, 8, 3, ext);
        if d < u.len() {
            assert(u =~= base + (seq!['.'] + ext));
        } else {
            assert(ext.len() == 0);
            assert(u =~= base);
        }
    }
}

/// A text that takes one UTF-8 byte per character when it is ASCII.
proof fn lemma_utf8_len_ascii(s: Seq<char>)
    requires
        all_ascii(s),
    ensures
        utf8_len(s) == s.len(),
    decreases s.len(),
{
    if s.len() > 0 {
        assert(all_ascii(s.drop_last()));
        lemma_utf8_len_ascii(s.drop_last());
    }
}

/// Upper-casing a name of plain characters the ASCII way keeps its dots
/// where they are, so its base and extension are those of the name, upper
/// cased; and it is made of short-name characters and dots.
proof fn lemma_plain_name_upper(n: Seq<char>, u: Seq<char>)
    requires
        forall|i: int| 0 <= i < n.len() ==> is_plain_name_char(#[trigger] n[i]),
        u == n.map_values(|c: char| ascii_upper(c)),
    ensures
        first_dot(u) == first_dot(n),
        name_base(u) == name_base(n).map_values(|c: char| ascii_upper(c)),
        name_ext(u) == name_ext(n).map_values(|c: char| ascii_upper(c)),
        utf8_len(n) == n.len(),
        utf8_len(name_base(u)) == name_base(n).len(),
        utf8_len(name_ext(u)) == name_ext(n).len(),
        forall|i: int| 0 <= i < u.len() ==> is_sfn_char(#[trigger] u[i]) || u[i] == '.',
        name_ext(u).contains('.') == name_ext(n).contains('.'),
{
    assert forall|i: int| 0 <= i < n.len() implies (#[trigger] u[i] == '.') == (n[i] == '.') && (
    is_sfn_char(u[i]) || u[i] == '.') && (n[i] as u32) < 0x80 && (u[i] as u32) < 0x80 by {
        assert(is_plain_name_char(n[i]));
        assert(u[i] == ascii_upper(n[i]));
    }
    lemma_first_dot_props(n);
    let d = first_dot(n);
    lemma_first_dot(u, d);
    let bn = name_base(n);
    let en = name_ext(n);
    assert(name_base(u) =~= bn.map_values(|c: char| ascii_upper(c)));
    assert(name_ext(u) =~= en.map_values(|c: char| ascii_upper(c)));
    assert(all_ascii(n));
    lemma_utf8_len_ascii(n);
    assert(all_ascii(name_base(u))) by {
        assert forall|i: int| 0 <= i < name_base(u).len() implies (name_base(u)[i] as u32) < 0x80 by {
            assert(name_base(u)[i] == u[i]);
        }
    }
    assert(all_ascii(name_ext(u))) by {
        assert forall|i: int| 0 <= i < name_ext(u).len() implies (name_ext(u)[i] as u32) < 0x80 by {
            assert(name_ext(u)[i] == u[d + 1 + i]);
        }
    }
    lemma_utf8_len_ascii(name_base(u));
    lemma_utf8_len_ascii(name_ext(u));
    if name_ext(u).contains('.') {
        let k = choose|k: int| 0 <= k < name_ext(u).len() && name_ext(u)[k] == '.';
        assert(name_ext(u)[k] == u[d + 1 + k]);
        assert(en[k] == n[d + 1 + k]);
        assert(en.contains('.'));
    }
    if en.contains('.') {
        let k = choose|k: int| 0 <= k < en.len() && en[k] == '.';
        assert(en[k] == n[d + 1 + k]);
        assert(name_ext(u)[k] == u[d + 1 + k]);
        assert(name_ext(u).contains('.'));
    }
}

/// Generate a valid 8.3 short filename, and whether the name also needs
/// long-name entries.
pub fn generate_short_name(name: &str) -> (r: ([u8; 11], bool))
    ensures
        r.0@ == short_name_of(name@).0,
        r.1 == short_name_of(name@).1,
        r.1 == (name@.len() > 12 || name_base(name@).len() > 8 || name_ext(name@).len() > 3
            || exists|i: int| 0 <= i < name@.len() && !is_plain_name_char(#[trigger] name@[i])),
        !r.1 && !name_ext(name@).contains('.') && (first_dot(name@) < name@.len() ==> name_ext(
            name@,
        ).len() > 0) ==> sfn_text(r.0@) == name@.map_values(|c: char| ascii_upper(c)),
{
    let upper_text = to_uppercase(name);
    let upper = chars_of(upper_text.as_str());
    let mut d: usize = 0;
    while d < upper.len() && upper[d] != '.'
        invariant
            d <= upper@.len(),
            forall|j: int| 0 <= j < d ==> upper@[j] != '.',
        decreases upper@.len() - d,
    {
        d = d + 1;
    }
    proof {
        lemma_first_dot(upper@, d as int);
    }
    let base = sub_chars(&upper, 0, d);
    let ext = if d < upper.len() {
        sub_chars(&upper, d + 1, upper.len())
    } else {
        Vec::new()
    };
    assert(base@ =~= name_base(upper@));
    assert(ext@ =~= name_ext(upper@));
    let name_chars = chars_of(name);
    let needs_lfn = utf8_len_exceeds(name_chars.as_slice(), 12) || utf8_len_exceeds(
        base.as_slice(),
        8,
    ) || utf8_len_exceeds(ext.as_slice(), 3) || has_special_char(&name_chars);
    let clean_base = filter_sfn(&base);
    let clean_ext = filter_sfn(&ext);
    let mut sfn = [0x20u8; 11];
    let mut i: usize = 0;
    proof {
        let cb = cleaned(base@, 8);
        let ce = cleaned(ext@, 3);
        assert(cb.len() == (if clean_base@.len() <= 8 { clean_base@.len() } else { 8 }));
        assert(forall|j: int| 0 <= j < cb.len() ==> cb[j] == clean_base@[j]);
        assert(ce.len() == (if clean_ext@.len() <= 3 { clean_ext@.len() } else { 3 }));
        assert(forall|j: int| 0 <= j < ce.len() ==> ce[j] == clean_ext@[j]);
    }
    while i < 11
        invariant
            i <= 11,
            clean_base@ == base@.filter(sfn_pred()),
            clean_ext@ == ext@.filter(sfn_pred()),
            cleaned(base@, 8).len() == (if clean_base@.len() <= 8 { clean_base@.len() } else { 8 }),
            forall|j: int| 0 <= j < cleaned(base@, 8).len() ==> cleaned(base@, 8)[j] == clean_base@[j],
            cleaned(ext@, 3).len() == (if clean_ext@.len() <= 3 { clean_ext@.len() } else { 3 }),
            forall|j: int| 0 <= j < cleaned(ext@, 3).len() ==> cleaned(ext@, 3)[j] == clean_ext@[j],
            forall|j: int|
                0 <= j < i ==> sfn@[j] == sfn_image(cleaned(base@, 8), cleaned(ext@, 3))[j],
        decreases 11 - i,
    {
        if i < 8 {
            if i < clean_base.len() {
                sfn[i] = clean_base[i] as u8;
            } else {
                sfn[i] = 0x20;
            }
        } else {
            if i - 8 < clean_ext.len() {
                sfn[i] = clean_ext[i - 8] as u8;
            } else {
                sfn[i] = 0x20;
            }
        }
        i = i + 1;
    }
    assert(sfn@ =~= sfn_image(cleaned(base@, 8), cleaned(ext@, 3)));
    proof {
        let n = name@;
        if forall|i: int| 0 <= i < n.len() ==> is_plain_name_char(#[trigger] n[i]) {
            assert(all_ascii(n)) by {
                assert forall|i: int| 0 <= i < n.len() implies (n[i] as u32) < 0x80 by {
                    assert(is_plain_name_char(n[i]));
                }
            }
            assert(upper@ == upper_text@);
            lemma_plain_name_upper(n, upper@);
            lemma_short_name_reads_back(n);
        } else {
            let i = choose|i: int| 0 <= i < n.len() && !is_plain_name_char(#[trigger] n[i]);
            assert(name_chars@[i] == n[i]);
        }
    }
    (sfn, needs_lfn)
}

/// Calculate the short-name checksum carried by long-name entries.
pub fn sfn_checksum(sfn: &[u8; 11]) -> (r: u8)
    ensures
        r == sfn_checksum_of(sfn@),
{
    let mut sum: u8 = 0;
    let mut i: usize = 0;
    while i < 11
        invariant
            i <= 11,
            sum == checksum_prefix(sfn@, i as nat),
        decreases 11 - i,
    {
        let rot: u8 = (sum >> 1u8) | (sum << 7u8);
        sum = ((rot as u16 + sfn[i] as u16) % 256) as u8;
        i = i + 1;
    }
    sum
}

/// Create a raw directory entry.
pub fn create_dir_entry_raw(sfn: &[u8; 11], first_cluster: u32, attrs: FileAttributes, size: u32) -> (r:
    [u8; 32])
    ensures
        r@ == raw_entry_image(sfn@, first_cluster, attrs.value(), size),
{
    let mut entry = [0u8; 32];
    let mut i: usize = 0;
    while i < 11
        invariant
            i <= 11,
            forall|j: int| 0 <= j < i ==> entry@[j] == sfn@[j],
            forall|j: int| 11 <= j < 32 ==> entry@[j] == 0,
        decreases 11 - i,
    {
        entry[i] = sfn[i];
        i = i + 1;
    }
    entry[11] = attrs.bits();
    let high = (first_cluster >> 16u32) as u16;
    entry[20] = high as u8;
    entry[21] = (high >> 8u16) as u8;
    let low = first_cluster as u16;
    entry[26] = low as u8;
    entry[27] = (low >> 8u16) as u8;
    entry[28] = size as u8;
    entry[29] = (size >> 8u32) as u8;
    entry[30] = (size >> 16u32) as u8;
    entry[31] = (size >> 24u32) as u8;
    assert((0u16 >> 8u16) as u8 == 0u8) by (bit_vector);
    assert(le16(0) =~= seq![0u8, 0u8]);
    assert(entry@ =~= raw_entry_image(sfn@, first_cluster, attrs.value(), size));
    entry
}

/// Create a simplified directory entry: "." and ".." keep their dots, any
/// other name its generated short name.
pub fn create_dir_entry(name: &str, first_cluster: u32, attrs: FileAttributes, size: u32) -> (r: [u8;
    32])
    ensures
        name@ == seq!['.'] ==> r@ == raw_entry_image(
            seq![0x2Eu8, 0x20, 0x20, 0x20, 0x20, 0x20, 0x20, 0x20, 0x20, 0x20, 0x20],
            first_cluster,
            attrs.value(),
            size,
        ),
        name@ == seq!['.', '.'] ==> r@ == raw_entry_image(
            seq![0x2Eu8, 0x2E, 0x20, 0x20, 0x20, 0x20, 0x20, 0x20, 0x20, 0x20, 0x20],
            first_cluster,
            attrs.value(),
            size,
        ),
        name@ != seq!['.'] && name@ != seq!['.', '.'] ==> r@ == raw_entry_image(
            short_name_of(name@).0,
            first_cluster,
            attrs.value(),
            size,
        ),
{
    let cs = chars_of(name);
    let mut sfn = [0x20u8; 11];
    if cs.len() == 1 && cs[0] == '.' {
        sfn[0] = 0x2E;
        assert(name@ =~= seq!['.']);
        assert(sfn@ =~= seq![0x2Eu8, 0x20, 0x20, 0x20, 0x20, 0x20, 0x20, 0x20, 0x20, 0x20, 0x20]);
    } else if cs.len() == 2 && cs[0] == '.' && cs[1] == '.' {
        sfn[0] = 0x2E;
        sfn[1] = 0x2E;
        assert(name@ =~= seq!['.', '.']);
        assert(sfn@ =~= seq![0x2Eu8, 0x2E, 0x20, 0x20, 0x20, 0x20, 0x20, 0x20, 0x20, 0x20, 0x20]);
    } else {
        assert(name@ != seq!['.']) by {
            if name@ == seq!['.'] {
                assert(cs@.len() == 1 && cs@[0] == '.');
            }
        }
        assert(name@ != seq!['.', '.']) by {
            if name@ == seq!['.', '.'] {
                assert(cs@.len() == 2 && cs@[0] == '.' && cs@[1] == '.');
            }
        }
        let (generated, _) = generate_short_name(name);
        sfn = generated;
    }
    create_dir_entry_raw(&sfn, first_cluster, attrs, size)
}

fn put_unit(entry: &mut [u8; 32], at: usize, u: u16)
    requires
        at + 2 <= 32,
    ensures
        final(entry)@ == old(entry)@.update(at as int, u as u8).update(at + 1, (u >> 8u16) as u8),
{
    entry[at] = u as u8;
    entry[at + 1] = (u >> 8u16) as u8;
}

/// Unit `s + k` of a long name, for `s` within the units.
fn unit_at(units: &Vec<u16>, s: usize, k: usize) -> (r: u16)
    requires
        s <= units@.len(),
    ensures
        r == lfn_unit(units@, s + k),
{
    let rest = units.len() - s;
    if k < rest {
        units[s + k]
    } else if k == rest {
        0
    } else {
        0xFFFF
    }
}

/// Long-name entry `i` of `count` for the units of a name.
fn lfn_entry(units: &Vec<u16>, i: usize, count: usize, checksum: u8) -> (r: [u8; 32])
    requires
        i < count,
        i * 13 <= units@.len(),
    ensures
        r@ == lfn_entry_image(units@, i as int, count as int, checksum),
{
    let mut entry = [0u8; 32];
    let n: u8 = ((i + 1) % 256) as u8;
    let seq_byte: u8 = if i == count - 1 {
        0x40u8 | n
    } else {
        n
    };
    entry[0] = seq_byte;
    entry[11] = 0x0F;
    entry[12] = 0;
    entry[13] = checksum;
    entry[26] = 0;
    entry[27] = 0;
    let len = units.len();
    assert(i * 13 <= len);
    let s = i * 13;
    put_unit(&mut entry, 1, unit_at(units, s, 0));
    put_unit(&mut entry, 3, unit_at(units, s, 1));
    put_unit(&mut entry, 5, unit_at(units, s, 2));
    put_unit(&mut entry, 7, unit_at(units, s, 3));
    put_unit(&mut entry, 9, unit_at(units, s, 4));
    put_unit(&mut entry, 14, unit_at(units, s, 5));
    put_unit(&mut entry, 16, unit_at(units, s, 6));
    put_unit(&mut entry, 18, unit_at(units, s, 7));
    put_unit(&mut entry, 20, unit_at(units, s, 8));
    put_unit(&mut entry, 22, unit_at(units, s, 9));
    put_unit(&mut entry, 24, unit_at(units, s, 10));
    put_unit(&mut entry, 28, unit_at(units, s, 11));
    put_unit(&mut entry, 30, unit_at(units, s, 12));
    assert(entry@ =~= lfn_entry_image(units@, i as int, count as int, checksum));
    entry
}

/// Create LFN + SFN entries for a filename.
pub fn create_lfn_entries(name: &str, first_cluster: u32, attrs: FileAttributes, size: u32) -> (r: Vec<
    [u8; 32],
>)
    ensures
        r@.len() == name_entries(name@, first_cluster, attrs.value(), size).len(),
        forall|k: int|
            0 <= k < r@.len() ==> #[trigger] r@[k]@ == name_entries(
                name@,
                first_cluster,
                attrs.value(),
                size,
            )[k],
        short_name_of(name@).1 && all_ascii(name@) ==> lfn_units(name@) == name@.map_values(
            |c: char| c as u16,
        ),
{
    let (sfn, lfn_needed) = generate_short_name(name);
    if !lfn_needed {
        let mut r: Vec<[u8; 32]> = Vec::new();
        r.push(create_dir_entry_raw(&sfn, first_cluster, attrs, size));
        return r;
    }
    let normalized = nfc(name);
    let units = encode_utf16(normalized.as_str());
    proof {
        if all_ascii(name@) {
            assert(forall|i: int|
                0 <= i < normalized@.len() ==> (#[trigger] normalized@[i] as u32) < 0xD800);
            lemma_utf16_below_surrogates(normalized@);
        }
    }
    let len = units.len();
    let count = len / 13 + if len % 13 == 0 {
        0
    } else {
        1
    };
    proof {
        assert(count == (len + 12) / 13) by (nonlinear_arith)
            requires
                count == len / 13 + (if len % 13 == 0 { 0int } else { 1int }),
        ;
    }
    let checksum = sfn_checksum(&sfn);
    let mut entries: Vec<[u8; 32]> = Vec::new();
    let mut k: usize = 0;
    while k < count
        invariant
            units@ == lfn_units(name@),
            all_ascii(name@) ==> lfn_units(name@) == name@.map_values(|c: char| c as u16),
            count == lfn_count(name@),
            count == (units@.len() + 12) / 13,
            k <= count,
            entries@.len() == k,
            checksum == sfn_checksum_of(sfn@),
            forall|j: int|
                0 <= j < k ==> #[trigger] entries@[j]@ == lfn_entry_image(
                    units@,
                    count - 1 - j,
                    count as int,
                    checksum,
                ),
        decreases count - k,
    {
        let i = count - 1 - k;
        proof {
            assert(i * 13 <= units@.len()) by (nonlinear_arith)
                requires
                    i < count,
                    count == (units@.len() + 12) / 13,
            ;
        }
        entries.push(lfn_entry(&units, i, count, checksum));
        k = k + 1;
    }
    entries.push(create_dir_entry_raw(&sfn, first_cluster, attrs, size));
    entries
}

/// The entries of a name hang together as VFAT requires: the short entry
/// comes last, and every long-name entry before it is 32 bytes, carries the
/// long-name attribute 0x0F and, at byte 13, the checksum of the short
/// entry's 11-byte name.
pub proof fn lemma_long_entries_name_short_entry(
    name: Seq<char>,
    first_cluster: u32,
    attrs: u8,
    size: u32,
)
    ensures
        ({
            let e = name_entries(name, first_cluster, attrs, size);
            let sfn = short_name_of(name).0;
            &&& e.len() >= 1
            &&& e.last() == raw_entry_image(sfn, first_cluster, attrs, size)
            &&& e.last().subrange(0, 11) == sfn
            &&& forall|k: int|
                0 <= k < e.len() - 1 ==> {
                    &&& (#[trigger] e[k]).len() == 32
                    &&& e[k][11] == 0x0Fu8
                    &&& e[k][13] == sfn_checksum_of(e.last().subrange(0, 11))
                }
        }),
{
    let e = name_entries(name, first_cluster, attrs, size);
    let (sfn, needs_lfn) = short_name_of(name);
    let raw = raw_entry_image(sfn, first_cluster, attrs, size);
    assert(sfn.len() == 11);
    assert(raw.subrange(0, 11) =~= sfn);
    if needs_lfn {
        let units = lfn_units(name);
        let count = lfn_count(name);
        let c = sfn_checksum_of(sfn);
        assert forall|k: int| 0 <= k < e.len() - 1 implies {
            &&& (#[trigger] e[k]).len() == 32
            &&& e[k][11] == 0x0Fu8
            &&& e[k][13] == sfn_checksum_of(e.last().subrange(0, 11))
        } by {
            let i = count - 1 - k;
            let s = i * 13;
            assert(e[k] == lfn_entry_image(units, i, count, c));
            let head = seq![lfn_sequence(i, count)] + le16(lfn_unit(units, s)) + le16(
                lfn_unit(units, s + 1),
            ) + le16(lfn_unit(units, s + 2)) + le16(lfn_unit(units, s + 3)) + le16(
                lfn_unit(units, s + 4),
            );
            assert(head.len() == 11);
            let mid = seq![0x0Fu8, 0u8, c];
            let rest = le16(lfn_unit(units, s + 5)) + le16(lfn_unit(units, s + 6)) + le16(
                lfn_unit(units, s + 7),
            ) + le16(lfn_unit(units, s + 8)) + le16(lfn_unit(units, s + 9)) + le16(
                lfn_unit(units, s + 10),
            ) + seq![0u8, 0u8] + le16(lfn_unit(units, s + 11)) + le16(lfn_unit(units, s + 12));
            assert(rest.len() == 18);
            assert(e[k] =~= head + mid + rest);
        }
    }
}

} // verus!
