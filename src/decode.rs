//! Fixed-width big-endian reads and writes.
use vstd::prelude::*;

verus! {

/// Whether `n` bytes are available at `p`.
pub open spec fn fits(s: Seq<u8>, p: int, n: int) -> bool {
    0 <= p && 0 <= n && p + n <= s.len()
}

/// The big-endian value of the two bytes at `p`.
pub open spec fn be16(s: Seq<u8>, p: int) -> u16 {
    ((s[p] as u16) << 8u16) | (s[p + 1] as u16)
}

/// The big-endian value of the four bytes at `p`.
pub open spec fn be32(s: Seq<u8>, p: int) -> u32 {
    ((s[p] as u32) << 24u32) | ((s[p + 1] as u32) << 16u32) | ((s[p + 2] as u32) << 8u32) | (
    s[p + 3] as u32)
}

/// The big-endian value of the eight bytes at `p`.
pub open spec fn be64(s: Seq<u8>, p: int) -> u64 {
    ((s[p] as u64) << 56u64) | ((s[p + 1] as u64) << 48u64) | ((s[p + 2] as u64) << 40u64) | ((s[p
        + 3] as u64) << 32u64) | ((s[p + 4] as u64) << 24u64) | ((s[p + 5] as u64) << 16u64) | ((s[p
        + 6] as u64) << 8u64) | (s[p + 7] as u64)
}

/// The two big-endian bytes of `v`.
pub open spec fn enc16(v: u16) -> Seq<u8> {
    seq![(v >> 8u16) as u8, v as u8]
}

/// The four big-endian bytes of `v`.
pub open spec fn enc32(v: u32) -> Seq<u8> {
    seq![(v >> 24u32) as u8, (v >> 16u32) as u8, (v >> 8u32) as u8, v as u8]
}

/// The eight big-endian bytes of `v`.
pub open spec fn enc64(v: u64) -> Seq<u8> {
    seq![
        (v >> 56u64) as u8,
        (v >> 48u64) as u8,
        (v >> 40u64) as u8,
        (v >> 32u64) as u8,
        (v >> 24u64) as u8,
        (v >> 16u64) as u8,
        (v >> 8u64) as u8,
        v as u8,
    ]
}

/// The first byte of a big-endian read is its high byte.
pub proof fn lemma_high_byte(s: Seq<u8>, p: int)
    ensures
        fits(s, p, 2) ==> be16(s, p) >> 8u16 == s[p] as u16,
        fits(s, p, 8) ==> be64(s, p) >> 56u64 == s[p] as u64,
{
    if fits(s, p, 2) {
        let (x, y) = (s[p], s[p + 1]);
        assert((((x as u16) << 8u16) | (y as u16)) >> 8u16 == x as u16) by (bit_vector);
    }
    if fits(s, p, 8) {
        let (x0, x1, x2, x3) = (s[p], s[p + 1], s[p + 2], s[p + 3]);
        let (x4, x5, x6, x7) = (s[p + 4], s[p + 5], s[p + 6], s[p + 7]);
        assert((((x0 as u64) << 56u64) | ((x1 as u64) << 48u64) | ((x2 as u64) << 40u64) | ((
        x3 as u64) << 32u64) | ((x4 as u64) << 24u64) | ((x5 as u64) << 16u64) | ((x6 as u64)
            << 8u64) | (x7 as u64)) >> 56u64 == x0 as u64) by (bit_vector);
    }
}

/// Whether `n` bytes at `p1` of `s1` are the `n` bytes at `p2` of `s2`.
pub open spec fn agree(s1: Seq<u8>, p1: int, s2: Seq<u8>, p2: int, n: int) -> bool {
    fits(s1, p1, n) && fits(s2, p2, n) && s1.subrange(p1, p1 + n) == s2.subrange(p2, p2 + n)
}

/// Two windows that agree agree on each byte, and on each part.
pub proof fn lemma_agree_sub(s1: Seq<u8>, p1: int, s2: Seq<u8>, p2: int, n: int, a: int, m: int)
    requires
        agree(s1, p1, s2, p2, n),
        0 <= a,
        0 <= m,
        a + m <= n,
    ensures
        agree(s1, p1 + a, s2, p2 + a, m),
{
    let (w1, w2) = (s1.subrange(p1, p1 + n), s2.subrange(p2, p2 + n));
    assert forall|k: int| 0 <= k < m implies #[trigger] s1.subrange(p1 + a, p1 + a + m)[k]
        == s2.subrange(p2 + a, p2 + a + m)[k] by {
        assert(w1[a + k] == w2[a + k]);
    }
    assert(s1.subrange(p1 + a, p1 + a + m) =~= s2.subrange(p2 + a, p2 + a + m));
}

/// The bytes read at the start of two agreeing windows are the same.
pub proof fn lemma_agree_reads(s1: Seq<u8>, p1: int, s2: Seq<u8>, p2: int, n: int, a: int)
    requires
        agree(s1, p1, s2, p2, n),
        0 <= a,
    ensures
        a + 1 <= n ==> s1[p1 + a] == s2[p2 + a],
        a + 2 <= n ==> be16(s1, p1 + a) == be16(s2, p2 + a),
        a + 4 <= n ==> be32(s1, p1 + a) == be32(s2, p2 + a),
        a + 8 <= n ==> be64(s1, p1 + a) == be64(s2, p2 + a),
{
    let (w1, w2) = (s1.subrange(p1, p1 + n), s2.subrange(p2, p2 + n));
    if a + 1 <= n {
        assert(w1[a] == w2[a]);
    }
    if a + 2 <= n {
        assert(w1[a + 1] == w2[a + 1]);
    }
    if a + 4 <= n {
        assert(w1[a + 2] == w2[a + 2]);
        assert(w1[a + 3] == w2[a + 3]);
    }
    if a + 8 <= n {
        assert(w1[a + 4] == w2[a + 4]);
        assert(w1[a + 5] == w2[a + 5]);
        assert(w1[a + 6] == w2[a + 6]);
        assert(w1[a + 7] == w2[a + 7]);
    }
}

/// A window of `s` agrees with the sequence of its bytes.
pub proof fn lemma_agree_window(s: Seq<u8>, p: int, n: int)
    requires
        fits(s, p, n),
    ensures
        agree(s, p, s.subrange(p, p + n), 0, n),
{
    assert(s.subrange(p, p + n).subrange(0, n) =~= s.subrange(p, p + n));
}

/// Reads the big-endian `u16` at `p`; `None` where fewer than two bytes remain.
pub fn read_u16(s: &[u8], p: usize) -> (r: Option<u16>)
    ensures
        match r {
            Some(v) => fits(s@, p as int, 2) && v == be16(s@, p as int),
            None => !fits(s@, p as int, 2),
        },
{
    if p > s.len() || s.len() - p < 2 {
        return None;
    }
    let b0 = s[p];
    let b1 = s[p + 1];
    Some(((b0 as u16) << 8u16) | (b1 as u16))
}

/// Reads the big-endian `u32` at `p`; `None` where fewer than four bytes remain.
pub fn read_u32(s: &[u8], p: usize) -> (r: Option<u32>)
    ensures
        match r {
            Some(v) => fits(s@, p as int, 4) && v == be32(s@, p as int),
            None => !fits(s@, p as int, 4),
        },
{
    if p > s.len() || s.len() - p < 4 {
        return None;
    }
    let b0 = s[p];
    let b1 = s[p + 1];
    let b2 = s[p + 2];
    let b3 = s[p + 3];
    Some(((b0 as u32) << 24u32) | ((b1 as u32) << 16u32) | ((b2 as u32) << 8u32) | (b3 as u32))
}

/// Reads the big-endian `u64` at `p`; `None` where fewer than eight bytes remain.
pub fn read_u64(s: &[u8], p: usize) -> (r: Option<u64>)
    ensures
        match r {
            Some(v) => fits(s@, p as int, 8) && v == be64(s@, p as int),
            None => !fits(s@, p as int, 8),
        },
{
    if p > s.len() || s.len() - p < 8 {
        return None;
    }
    let b0 = s[p];
    let b1 = s[p + 1];
    let b2 = s[p + 2];
    let b3 = s[p + 3];
    let b4 = s[p + 4];
    let b5 = s[p + 5];
    let b6 = s[p + 6];
    let b7 = s[p + 7];
    Some(
        ((b0 as u64) << 56u64) | ((b1 as u64) << 48u64) | ((b2 as u64) << 40u64) | ((b3 as u64)
            << 32u64) | ((b4 as u64) << 24u64) | ((b5 as u64) << 16u64) | ((b6 as u64) << 8u64) | (
        b7 as u64),
    )
}

/// Copies the `n` bytes at `p`.
pub fn copy_bytes(s: &[u8], p: usize, n: usize) -> (r: Vec<u8>)
    requires
        fits(s@, p as int, n as int),
    ensures
        r@ == s@.subrange(p as int, p + n),
{
    let mut r: Vec<u8> = Vec::new();
    let mut i: usize = 0;
    while i < n
        invariant
            i <= n,
            fits(s@, p as int, n as int),
            p + n <= s.len(),
            r@ == s@.subrange(p as int, p + i),
        decreases n - i,
    {
        r.push(s[p + i]);
        i = i + 1;
        assert(r@ =~= s@.subrange(p as int, p + i));
    }
    r
}

/// Appends the bytes of `b`.
pub fn write_bytes(out: &mut Vec<u8>, b: &[u8])
    ensures
        final(out)@ == old(out)@ + b@,
{
    let mut i: usize = 0;
    while i < b.len()
        invariant
            i <= b.len(),
            out@ == old(out)@ + b@.subrange(0, i as int),
        decreases b.len() - i,
    {
        out.push(b[i]);
        i = i + 1;
        assert(out@ =~= old(out)@ + b@.subrange(0, i as int));
    }
    assert(b@.subrange(0, i as int) =~= b@);
}

/// Appends the two big-endian bytes of `v`.
pub fn write_u16(out: &mut Vec<u8>, v: u16)
    ensures
        final(out)@ == old(out)@ + enc16(v),
{
    out.push((v >> 8u16) as u8);
    out.push(v as u8);
    assert(out@ =~= old(out)@ + enc16(v));
}

/// Appends the four big-endian bytes of `v`.
pub fn write_u32(out: &mut Vec<u8>, v: u32)
    ensures
        final(out)@ == old(out)@ + enc32(v),
{
    out.push((v >> 24u32) as u8);
    out.push((v >> 16u32) as u8);
    out.push((v >> 8u32) as u8);
    out.push(v as u8);
    assert(out@ =~= old(out)@ + enc32(v));
}

/// Appends the eight big-endian bytes of `v`.
pub fn write_u64(out: &mut Vec<u8>, v: u64)
    ensures
        final(out)@ == old(out)@ + enc64(v),
{
    out.push((v >> 56u64) as u8);
    out.push((v >> 48u64) as u8);
    out.push((v >> 40u64) as u8);
    out.push((v >> 32u64) as u8);
    out.push((v >> 24u64) as u8);
    out.push((v >> 16u64) as u8);
    out.push((v >> 8u64) as u8);
    out.push(v as u8);
    assert(out@ =~= old(out)@ + enc64(v));
}

/// Decoding the encoding of a `u16` gives it back, and encoding two decoded
/// bytes gives them back.
pub proof fn lemma_be16(v: u16, s: Seq<u8>, p: int)
    ensures
        be16(enc16(v), 0) == v,
        fits(s, p, 2) ==> enc16(be16(s, p)) == s.subrange(p, p + 2),
{
    let e = enc16(v);
    let (a, b) = (e[0], e[1]);
    assert(a == (v >> 8u16) as u8 && b == v as u8);
    assert((((((v >> 8u16) as u8) as u16) << 8u16) | ((v as u8) as u16)) == v) by (bit_vector);
    if fits(s, p, 2) {
        let (x, y) = (s[p], s[p + 1]);
        let w = ((x as u16) << 8u16) | (y as u16);
        assert((w >> 8u16) as u8 == x && w as u8 == y) by (bit_vector)
            requires
                w == ((x as u16) << 8u16) | (y as u16),
        ;
        assert(enc16(be16(s, p)) =~= s.subrange(p, p + 2));
    }
}

/// Decoding the encoding of a `u32` gives it back, and encoding four decoded
/// bytes gives them back.
pub proof fn lemma_be32(v: u32, s: Seq<u8>, p: int)
    ensures
        be32(enc32(v), 0) == v,
        fits(s, p, 4) ==> enc32(be32(s, p)) == s.subrange(p, p + 4),
{
    assert((((((v >> 24u32) as u8) as u32) << 24u32) | ((((v >> 16u32) as u8) as u32) << 16u32)
        | ((((v >> 8u32) as u8) as u32) << 8u32) | ((v as u8) as u32)) == v) by (bit_vector);
    if fits(s, p, 4) {
        let (x0, x1, x2, x3) = (s[p], s[p + 1], s[p + 2], s[p + 3]);
        let w = be32(s, p);
        assert((w >> 24u32) as u8 == x0 && (w >> 16u32) as u8 == x1 && (w >> 8u32) as u8 == x2
            && w as u8 == x3) by (bit_vector)
            requires
                w == ((x0 as u32) << 24u32) | ((x1 as u32) << 16u32) | ((x2 as u32) << 8u32) | (
                x3 as u32),
        ;
        assert(enc32(be32(s, p)) =~= s.subrange(p, p + 4));
    }
}

/// Decoding the encoding of a `u64` gives it back, and encoding eight decoded
/// bytes gives them back.
pub proof fn lemma_be64(v: u64, s: Seq<u8>, p: int)
    ensures
        be64(enc64(v), 0) == v,
        fits(s, p, 8) ==> enc64(be64(s, p)) == s.subrange(p, p + 8),
{
    assert((((((v >> 56u64) as u8) as u64) << 56u64) | ((((v >> 48u64) as u8) as u64) << 48u64)
        | ((((v >> 40u64) as u8) as u64) << 40u64) | ((((v >> 32u64) as u8) as u64) << 32u64) | ((((
    v >> 24u64) as u8) as u64) << 24u64) | ((((v >> 16u64) as u8) as u64) << 16u64) | ((((v
        >> 8u64) as u8) as u64) << 8u64) | ((v as u8) as u64)) == v) by (bit_vector);
    if fits(s, p, 8) {
        let (x0, x1, x2, x3) = (s[p], s[p + 1], s[p + 2], s[p + 3]);
        let (x4, x5, x6, x7) = (s[p + 4], s[p + 5], s[p + 6], s[p + 7]);
        let w = be64(s, p);
        assert((w >> 56u64) as u8 == x0 && (w >> 48u64) as u8 == x1 && (w >> 40u64) as u8 == x2
            && (w >> 32u64) as u8 == x3 && (w >> 24u64) as u8 == x4 && (w >> 16u64) as u8 == x5
            && (w >> 8u64) as u8 == x6 && w as u8 == x7) by (bit_vector)
            requires
                w == ((x0 as u64) << 56u64) | ((x1 as u64) << 48u64) | ((x2 as u64) << 40u64) | ((
                x3 as u64) << 32u64) | ((x4 as u64) << 24u64) | ((x5 as u64) << 16u64) | ((
                x6 as u64) << 8u64) | (x7 as u64),
        ;
        assert(enc64(be64(s, p)) =~= s.subrange(p, p + 8));
    }
}

} // verus!
