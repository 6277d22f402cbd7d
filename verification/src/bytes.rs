//! Fixed-width integer encodings used by every on-disk and on-wire format of
//! the crate, with their decoders and the round-trip laws that tie them.

use vstd::prelude::*;

verus! {

/// Little-endian encoding of a 16-bit value.
pub open spec fn le16(x: u16) -> Seq<u8> {
    seq![x as u8, (x >> 8u16) as u8]
}

/// Little-endian encoding of a 32-bit value.
pub open spec fn le32(x: u32) -> Seq<u8> {
    seq![x as u8, (x >> 8u32) as u8, (x >> 16u32) as u8, (x >> 24u32) as u8]
}

/// Little-endian encoding of a 64-bit value.
pub open spec fn le64(x: u64) -> Seq<u8> {
    seq![
        x as u8,
        (x >> 8u64) as u8,
        (x >> 16u64) as u8,
        (x >> 24u64) as u8,
        (x >> 32u64) as u8,
        (x >> 40u64) as u8,
        (x >> 48u64) as u8,
        (x >> 56u64) as u8,
    ]
}

/// Big-endian encoding of a 16-bit value.
pub open spec fn be16(x: u16) -> Seq<u8> {
    seq![(x >> 8u16) as u8, x as u8]
}

/// Big-endian encoding of a 32-bit value.
pub open spec fn be32(x: u32) -> Seq<u8> {
    seq![(x >> 24u32) as u8, (x >> 16u32) as u8, (x >> 8u32) as u8, x as u8]
}

/// The 16-bit little-endian value stored at `off` in `b`.
pub open spec fn u16_le_at(b: Seq<u8>, off: int) -> u16 {
    (b[off] as u16) | ((b[off + 1] as u16) << 8u16)
}

/// The 32-bit little-endian value stored at `off` in `b`.
pub open spec fn u32_le_at(b: Seq<u8>, off: int) -> u32 {
    (b[off] as u32) | ((b[off + 1] as u32) << 8u32) | ((b[off + 2] as u32) << 16u32) | ((b[off
        + 3] as u32) << 24u32)
}

/// The 32-bit big-endian value stored at `off` in `b`.
pub open spec fn u32_be_at(b: Seq<u8>, off: int) -> u32 {
    ((b[off] as u32) << 24u32) | ((b[off + 1] as u32) << 16u32) | ((b[off + 2] as u32) << 8u32)
        | (b[off + 3] as u32)
}

/// The low 32 bits of a 64-bit little-endian value at `off`.
pub open spec fn u64_le_lo(b: Seq<u8>, off: int) -> u64 {
    (b[off] as u64) | ((b[off + 1] as u64) << 8u64) | ((b[off + 2] as u64) << 16u64) | ((b[off
        + 3] as u64) << 24u64)
}

/// The 64-bit little-endian value stored at `off` in `b`.
pub open spec fn u64_le_at(b: Seq<u8>, off: int) -> u64 {
    u64_le_lo(b, off) | ((b[off + 4] as u64) << 32u64) | ((b[off + 5] as u64) << 40u64) | ((b[off
        + 6] as u64) << 48u64) | ((b[off + 7] as u64) << 56u64)
}

/// The 56-bit little-endian value stored in the seven bytes at `off`.
pub open spec fn u56_le_at(b: Seq<u8>, off: int) -> u64 {
    u64_le_lo(b, off) | ((b[off + 4] as u64) << 32u64) | ((b[off + 5] as u64) << 40u64) | ((b[off
        + 6] as u64) << 48u64)
}

/// Reads a little-endian `u16` at `off`.
pub fn read_u16_le(b: &[u8], off: usize) -> (r: u16)
    requires
        off + 2 <= b@.len(),
    ensures
        r == u16_le_at(b@, off as int),
{
    (b[off] as u16) | ((b[off + 1] as u16) << 8u16)
}

/// Reads a little-endian `u32` at `off`.
pub fn read_u32_le(b: &[u8], off: usize) -> (r: u32)
    requires
        off + 4 <= b@.len(),
    ensures
        r == u32_le_at(b@, off as int),
{
    (b[off] as u32) | ((b[off + 1] as u32) << 8u32) | ((b[off + 2] as u32) << 16u32) | ((b[off
        + 3] as u32) << 24u32)
}

/// Reads a big-endian `u32` at `off`.
pub fn read_u32_be(b: &[u8], off: usize) -> (r: u32)
    requires
        off + 4 <= b@.len(),
    ensures
        r == u32_be_at(b@, off as int),
{
    ((b[off] as u32) << 24u32) | ((b[off + 1] as u32) << 16u32) | ((b[off + 2] as u32) << 8u32)
        | (b[off + 3] as u32)
}

/// Reads a little-endian `u64` at `off`.
pub fn read_u64_le(b: &[u8], off: usize) -> (r: u64)
    requires
        off + 8 <= b@.len(),
    ensures
        r == u64_le_at(b@, off as int),
{
    let lo: u64 = (b[off] as u64) | ((b[off + 1] as u64) << 8u64) | ((b[off + 2] as u64) << 16u64)
        | ((b[off + 3] as u64) << 24u64);
    lo | ((b[off + 4] as u64) << 32u64) | ((b[off + 5] as u64) << 40u64) | ((b[off + 6] as u64)
        << 48u64) | ((b[off + 7] as u64) << 56u64)
}

/// Reads a little-endian 56-bit value from the seven bytes at `off`.
pub fn read_u56_le(b: &[u8], off: usize) -> (r: u64)
    requires
        off + 7 <= b@.len(),
    ensures
        r == u56_le_at(b@, off as int),
{
    let lo: u64 = (b[off] as u64) | ((b[off + 1] as u64) << 8u64) | ((b[off + 2] as u64) << 16u64)
        | ((b[off + 3] as u64) << 24u64);
    lo | ((b[off + 4] as u64) << 32u64) | ((b[off + 5] as u64) << 40u64) | ((b[off + 6] as u64)
        << 48u64)
}

/// Appends the little-endian encoding of `x`.
pub fn push_le16(v: &mut Vec<u8>, x: u16)
    ensures
        final(v)@ == old(v)@ + le16(x),
{
    v.push(x as u8);
    v.push((x >> 8u16) as u8);
    assert(v@ =~= old(v)@ + le16(x));
}

/// Appends the little-endian encoding of `x`.
pub fn push_le32(v: &mut Vec<u8>, x: u32)
    ensures
        final(v)@ == old(v)@ + le32(x),
{
    v.push(x as u8);
    v.push((x >> 8u32) as u8);
    v.push((x >> 16u32) as u8);
    v.push((x >> 24u32) as u8);
    assert(v@ =~= old(v)@ + le32(x));
}

/// Appends the little-endian encoding of `x`.
pub fn push_le64(v: &mut Vec<u8>, x: u64)
    ensures
        final(v)@ == old(v)@ + le64(x),
{
    v.push(x as u8);
    v.push((x >> 8u64) as u8);
    v.push((x >> 16u64) as u8);
    v.push((x >> 24u64) as u8);
    v.push((x >> 32u64) as u8);
    v.push((x >> 40u64) as u8);
    v.push((x >> 48u64) as u8);
    v.push((x >> 56u64) as u8);
    assert(v@ =~= old(v)@ + le64(x));
}

/// Appends the big-endian encoding of `x`.
pub fn push_be16(v: &mut Vec<u8>, x: u16)
    ensures
        final(v)@ == old(v)@ + be16(x),
{
    v.push((x >> 8u16) as u8);
    v.push(x as u8);
    assert(v@ =~= old(v)@ + be16(x));
}

/// Appends the big-endian encoding of `x`.
pub fn push_be32(v: &mut Vec<u8>, x: u32)
    ensures
        final(v)@ == old(v)@ + be32(x),
{
    v.push((x >> 24u32) as u8);
    v.push((x >> 16u32) as u8);
    v.push((x >> 8u32) as u8);
    v.push(x as u8);
    assert(v@ =~= old(v)@ + be32(x));
}

/// Appends every byte of `s`.
pub fn push_all(v: &mut Vec<u8>, s: &[u8])
    ensures
        final(v)@ == old(v)@ + s@,
{
    let mut i: usize = 0;
    while i < s.len()
        invariant
            i <= s@.len(),
            v@ == old(v)@ + s@.subrange(0, i as int),
        decreases s@.len() - i,
    {
        v.push(s[i]);
        i = i + 1;
        assert(v@ =~= old(v)@ + s@.subrange(0, i as int));
    }
    assert(s@.subrange(0, s@.len() as int) =~= s@);
}

/// Appends `n` copies of `b`.
pub fn push_repeat(v: &mut Vec<u8>, b: u8, n: usize)
    ensures
        final(v)@ == old(v)@ + Seq::new(n as nat, |_i: int| b),
{
    let mut i: usize = 0;
    while i < n
        invariant
            i <= n,
            v@ == old(v)@ + Seq::new(i as nat, |_i: int| b),
        decreases n - i,
    {
        v.push(b);
        i = i + 1;
        assert(v@ =~= old(v)@ + Seq::new(i as nat, |_i: int| b));
    }
}

/// A run of `n` zero bytes.
pub open spec fn zeros(n: nat) -> Seq<u8> {
    Seq::new(n, |_i: int| 0u8)
}

/// Appends one byte.
pub fn push_byte(v: &mut Vec<u8>, x: u8)
    ensures
        final(v)@ == old(v)@ + seq![x],
{
    v.push(x);
    assert(v@ =~= old(v)@ + seq![x]);
}

/// Appends `n` zero bytes.
pub fn push_zeros(v: &mut Vec<u8>, n: usize)
    ensures
        final(v)@ == old(v)@ + zeros(n as nat),
{
    push_repeat(v, 0u8, n);
    assert(Seq::new(n as nat, |_i: int| 0u8) =~= zeros(n as nat));
}

/// Decoding the little-endian encoding of a `u16` gives the value back.
pub proof fn lemma_le16_roundtrip(x: u16)
    ensures
        u16_le_at(le16(x), 0) == x,
{
    let s = le16(x);
    assert(s[0] == x as u8 && s[1] == (x >> 8u16) as u8);
    assert(((x as u8) as u16) | ((((x >> 8u16) as u8) as u16) << 8u16) == x) by (bit_vector);
}

/// Decoding the little-endian encoding of a `u32` gives the value back.
pub proof fn lemma_le32_roundtrip(x: u32)
    ensures
        u32_le_at(le32(x), 0) == x,
{
    let s = le32(x);
    assert(s[0] == x as u8 && s[1] == (x >> 8u32) as u8 && s[2] == (x >> 16u32) as u8 && s[3] == (x
        >> 24u32) as u8);
    assert(((x as u8) as u32) | ((((x >> 8u32) as u8) as u32) << 8u32) | ((((x >> 16u32) as u8)
        as u32) << 16u32) | ((((x >> 24u32) as u8) as u32) << 24u32) == x) by (bit_vector);
}

/// Decoding the big-endian encoding of a `u32` gives the value back.
pub proof fn lemma_be32_roundtrip(x: u32)
    ensures
        u32_be_at(be32(x), 0) == x,
{
    let s = be32(x);
    assert(s[3] == x as u8 && s[2] == (x >> 8u32) as u8 && s[1] == (x >> 16u32) as u8 && s[0] == (x
        >> 24u32) as u8);
    assert(((((x >> 24u32) as u8) as u32) << 24u32) | ((((x >> 16u32) as u8) as u32) << 16u32) | ((((
    x >> 8u32) as u8) as u32) << 8u32) | ((x as u8) as u32) == x) by (bit_vector);
}

/// Decoding the little-endian encoding of a `u64` gives the value back.
pub proof fn lemma_le64_roundtrip(x: u64)
    ensures
        u64_le_at(le64(x), 0) == x,
{
    let s = le64(x);
    assert(s[0] == x as u8 && s[1] == (x >> 8u64) as u8 && s[2] == (x >> 16u64) as u8 && s[3] == (x
        >> 24u64) as u8 && s[4] == (x >> 32u64) as u8 && s[5] == (x >> 40u64) as u8 && s[6] == (x
        >> 48u64) as u8 && s[7] == (x >> 56u64) as u8);
    assert(((x as u8) as u64) | ((((x >> 8u64) as u8) as u64) << 8u64) | ((((x >> 16u64) as u8)
        as u64) << 16u64) | ((((x >> 24u64) as u8) as u64) << 24u64) | ((((x >> 32u64) as u8)
        as u64) << 32u64) | ((((x >> 40u64) as u8) as u64) << 40u64) | ((((x >> 48u64) as u8)
        as u64) << 48u64) | ((((x >> 56u64) as u8) as u64) << 56u64) == x) by (bit_vector);
}

/// Reading a little-endian `u32` looks only at the four bytes it covers, so
/// it is unchanged by what surrounds them.
pub proof fn lemma_u32_le_at_window(a: Seq<u8>, b: Seq<u8>, off: int)
    requires
        0 <= off,
        off + 4 <= a.len(),
        b == a.subrange(off, off + 4),
    ensures
        u32_le_at(a, off) == u32_le_at(b, 0),
{
    assert(a[off] == b[0] && a[off + 1] == b[1] && a[off + 2] == b[2] && a[off + 3] == b[3]);
}


/// Where the little-endian encoding of `x` stands in `b` at `off`, reading a
/// `u16` there gives `x` back.
pub proof fn lemma_le16_read_at(b: Seq<u8>, off: int, x: u16)
    requires
        0 <= off,
        off + 2 <= b.len(),
        b.subrange(off, off + 2) == le16(x),
    ensures
        u16_le_at(b, off) == x,
{
    lemma_le16_roundtrip(x);
    assert(b[off] == le16(x)[0] && b[off + 1] == le16(x)[1]);
}

/// Where the little-endian encoding of `x` stands in `b` at `off`, reading a
/// `u32` there gives `x` back.
pub proof fn lemma_le32_read_at(b: Seq<u8>, off: int, x: u32)
    requires
        0 <= off,
        off + 4 <= b.len(),
        b.subrange(off, off + 4) == le32(x),
    ensures
        u32_le_at(b, off) == x,
{
    lemma_le32_roundtrip(x);
    lemma_u32_le_at_window(b, le32(x), off);
}

/// Where the little-endian encoding of `x` stands in `b` at `off`, reading a
/// `u64` there gives `x` back.
pub proof fn lemma_le64_read_at(b: Seq<u8>, off: int, x: u64)
    requires
        0 <= off,
        off + 8 <= b.len(),
        b.subrange(off, off + 8) == le64(x),
    ensures
        u64_le_at(b, off) == x,
{
    lemma_le64_roundtrip(x);
    let e = le64(x);
    assert(b[off] == e[0] && b[off + 1] == e[1] && b[off + 2] == e[2] && b[off + 3] == e[3]);
    assert(b[off + 4] == e[4] && b[off + 5] == e[5] && b[off + 6] == e[6] && b[off + 7] == e[7]);
}
} // verus!
