use vstd::prelude::*;

verus! {

/// The unsigned integer that four bytes spell, most significant byte first.
pub open spec fn be_u32(b: Seq<u8>) -> int {
    b[0] * 0x100_0000 + b[1] * 0x1_0000 + b[2] * 0x100 + b[3]
}

/// The two bytes of `v`, most significant first.
pub open spec fn u16_bytes(v: u16) -> Seq<u8> {
    seq![(v >> 8u16) as u8, v as u8]
}

/// The `u16` that two bytes spell, most significant first.
pub open spec fn be_u16(hi: u8, lo: u8) -> u16 {
    ((hi as u16) << 8u16) | (lo as u16)
}

/// The eight bytes of `v`, most significant first.
pub open spec fn u64_bytes(v: u64) -> Seq<u8> {
    seq![
        (v >> 56u64) as u8,
        (v >> 48u64) as u8,
        (v >> 40u64) as u8,
        (v >> 32u64) as u8,
        (v >> 24u64) as u8,
        (v >> 16u64) as u8,
        (v >> 8u64) as u8,
        v as u8,
    ]
}

/// The `u64` that the eight bytes of `b` from `p` on spell, most significant first.
pub open spec fn be_u64_at(b: Seq<u8>, p: int) -> u64 {
    be_u64(b[p], b[p + 1], b[p + 2], b[p + 3], b[p + 4], b[p + 5], b[p + 6], b[p + 7])
}

pub open spec fn be_u64(b0: u8, b1: u8, b2: u8, b3: u8, b4: u8, b5: u8, b6: u8, b7: u8) -> u64 {
    ((b0 as u64) << 56u64) | ((b1 as u64) << 48u64) | ((b2 as u64) << 40u64) | ((b3 as u64)
        << 32u64) | ((b4 as u64) << 24u64) | ((b5 as u64) << 16u64) | ((b6 as u64) << 8u64) | (
    b7 as u64)
}

/// Two bytes read back give the `u16` they were written from, and the other way round.
pub proof fn lemma_u16_bytes(v: u16, hi: u8, lo: u8)
    ensures
        be_u16(u16_bytes(v)[0], u16_bytes(v)[1]) == v,
        u16_bytes(be_u16(hi, lo)) == seq![hi, lo],
{
    let h = (v >> 8u16) as u8;
    let l = v as u8;
    assert((((h as u16) << 8u16) | (l as u16)) == v) by (bit_vector)
        requires
            h == (v >> 8u16) as u8,
            l == v as u8,
    ;
    let w = be_u16(hi, lo);
    assert((w >> 8u16) as u8 == hi && w as u8 == lo) by (bit_vector)
        requires
            w == ((hi as u16) << 8u16) | (lo as u16),
    ;
    assert(u16_bytes(w) =~= seq![hi, lo]);
}

/// Eight bytes read back give the `u64` they were written from, and the other way round.
pub proof fn lemma_u64_bytes(v: u64, b: Seq<u8>)
    requires
        b.len() == 8,
    ensures
        be_u64_at(u64_bytes(v), 0) == v,
        u64_bytes(be_u64_at(b, 0)) == b,
{
    let s = u64_bytes(v);
    let (c0, c1, c2, c3, c4, c5, c6, c7) = (s[0], s[1], s[2], s[3], s[4], s[5], s[6], s[7]);
    assert(be_u64(c0, c1, c2, c3, c4, c5, c6, c7) == v) by (bit_vector)
        requires
            c0 == (v >> 56u64) as u8,
            c1 == (v >> 48u64) as u8,
            c2 == (v >> 40u64) as u8,
            c3 == (v >> 32u64) as u8,
            c4 == (v >> 24u64) as u8,
            c5 == (v >> 16u64) as u8,
            c6 == (v >> 8u64) as u8,
            c7 == v as u8,
    ;
    let (d0, d1, d2, d3, d4, d5, d6, d7) = (b[0], b[1], b[2], b[3], b[4], b[5], b[6], b[7]);
    let w = be_u64(d0, d1, d2, d3, d4, d5, d6, d7);
    assert((w >> 56u64) as u8 == d0 && (w >> 48u64) as u8 == d1 && (w >> 40u64) as u8 == d2 && (w
        >> 32u64) as u8 == d3 && (w >> 24u64) as u8 == d4 && (w >> 16u64) as u8 == d5 && (w
        >> 8u64) as u8 == d6 && w as u8 == d7) by (bit_vector)
        requires
            w == be_u64(d0, d1, d2, d3, d4, d5, d6, d7),
    ;
    assert(u64_bytes(w) =~= b);
}

/// Reads four bytes as a big-endian `u32`.
pub fn bytes_to_u32(bytes: [u8; 4]) -> (r: u32)
    ensures
        r == be_u32(bytes@),
{
    let b0 = bytes[0] as u32;
    let b1 = bytes[1] as u32;
    let b2 = bytes[2] as u32;
    let b3 = bytes[3] as u32;
    assert((b3 << 0u32) == b3 && (b0 << 24u32) == b0 * 0x100_0000 && (b1 << 16u32) == b1
        * 0x1_0000 && (b2 << 8u32) == b2 * 0x100) by (bit_vector)
        requires
            b0 < 256,
            b1 < 256,
            b2 < 256,
            b3 < 256,
    ;
    (b3 << 0u32) + (b2 << 8u32) + (b1 << 16u32) + (b0 << 24u32)
}

/// Reads the big-endian `u32` at `pos`.
pub fn read_u32(b: &Vec<u8>, pos: usize) -> (r: u32)
    requires
        pos + 4 <= b@.len(),
    ensures
        r == be_u32(b@.subrange(pos as int, pos + 4)),
{
    let len = b.len();
    assert(pos + 4 <= len);
    bytes_to_u32([b[pos], b[pos + 1], b[pos + 2], b[pos + 3]])
}

/// Reads the big-endian `u16` at `pos`.
pub fn read_u16(b: &Vec<u8>, pos: usize) -> (r: u16)
    requires
        pos + 2 <= b@.len(),
    ensures
        r == be_u16(b@[pos as int], b@[pos + 1]),
{
    let len = b.len();
    assert(pos + 2 <= len);
    ((b[pos] as u16) << 8u16) | (b[pos + 1] as u16)
}

/// Reads the big-endian `u64` at `pos`.
pub fn read_u64(b: &Vec<u8>, pos: usize) -> (r: u64)
    requires
        pos + 8 <= b@.len(),
    ensures
        r == be_u64_at(b@, pos as int),
{
    let len = b.len();
    assert(pos + 8 <= len);
    ((b[pos] as u64) << 56u64) | ((b[pos + 1] as u64) << 48u64) | ((b[pos + 2] as u64) << 40u64)
        | ((b[pos + 3] as u64) << 32u64) | ((b[pos + 4] as u64) << 24u64) | ((b[pos + 5] as u64)
        << 16u64) | ((b[pos + 6] as u64) << 8u64) | (b[pos + 7] as u64)
}

/// Copies the `len` elements of `b` that start at `start`.
pub fn copy_range<T: Copy>(b: &Vec<T>, start: usize, len: usize) -> (r: Vec<T>)
    requires
        start + len <= b@.len(),
    ensures
        r@ == b@.subrange(start as int, start + len),
{
    let n = b.len();
    let mut r: Vec<T> = Vec::with_capacity(len);
    let mut k: usize = 0;
    while k < len
        invariant
            n == b@.len(),
            start + len <= n,
            k <= len,
            r@ == b@.subrange(start as int, start + k),
        decreases len - k,
    {
        r.push(b[start + k]);
        k = k + 1;
        assert(r@ =~= b@.subrange(start as int, start + k));
    }
    r
}

/// Appends the two bytes of `v`, most significant first.
pub fn push_u16(out: &mut Vec<u8>, v: u16)
    ensures
        final(out)@ == old(out)@ + u16_bytes(v),
{
    out.push((v >> 8u16) as u8);
    out.push(v as u8);
    assert(final(out)@ =~= old(out)@ + u16_bytes(v));
}

/// Appends the eight bytes of `v`, most significant first.
pub fn push_u64(out: &mut Vec<u8>, v: u64)
    ensures
        final(out)@ == old(out)@ + u64_bytes(v),
{
    out.push((v >> 56u64) as u8);
    out.push((v >> 48u64) as u8);
    out.push((v >> 40u64) as u8);
    out.push((v >> 32u64) as u8);
    out.push((v >> 24u64) as u8);
    out.push((v >> 16u64) as u8);
    out.push((v >> 8u64) as u8);
    out.push(v as u8);
    assert(final(out)@ =~= old(out)@ + u64_bytes(v));
}

/// The bytes of a run of `u16` values, each most significant byte first.
pub open spec fn u16s_bytes(s: Seq<u16>) -> Seq<u8>
    decreases s.len(),
{
    if s.len() == 0 {
        Seq::empty()
    } else {
        u16s_bytes(s.drop_last()) + u16_bytes(s.last())
    }
}

/// The bytes of a run of `u64` values, each most significant byte first.
pub open spec fn u64s_bytes(s: Seq<u64>) -> Seq<u8>
    decreases s.len(),
{
    if s.len() == 0 {
        Seq::empty()
    } else {
        u64s_bytes(s.drop_last()) + u64_bytes(s.last())
    }
}

/// The `u16` values that a run of bytes spells, two bytes each.
pub open spec fn u16s_decode(b: Seq<u8>) -> Seq<u16> {
    Seq::new(b.len() / 2, |i: int| be_u16(b[2 * i], b[2 * i + 1]))
}

/// The `u64` values that a run of bytes spells, eight bytes each.
pub open spec fn u64s_decode(b: Seq<u8>) -> Seq<u64> {
    Seq::new(b.len() / 8, |i: int| be_u64_at(b, 8 * i))
}

pub proof fn lemma_u16s_len(s: Seq<u16>)
    ensures
        u16s_bytes(s).len() == 2 * s.len(),
    decreases s.len(),
{
    if s.len() > 0 {
        lemma_u16s_len(s.drop_last());
    }
}

pub proof fn lemma_u64s_len(s: Seq<u64>)
    ensures
        u64s_bytes(s).len() == 8 * s.len(),
    decreases s.len(),
{
    if s.len() > 0 {
        lemma_u64s_len(s.drop_last());
    }
}

/// Decoding the bytes of a run of `u16` values gives the run back.
pub proof fn lemma_u16s_round_trip(s: Seq<u16>)
    ensures
        u16s_decode(u16s_bytes(s)) == s,
    decreases s.len(),
{
    lemma_u16s_len(s);
    if s.len() > 0 {
        let t = s.drop_last();
        lemma_u16s_round_trip(t);
        lemma_u16s_len(t);
        lemma_u16_bytes(s.last(), 0, 0);
        let b = u16s_bytes(s);
        let c = u16s_bytes(t);
        assert forall|i: int| 0 <= i < s.len() implies u16s_decode(b)[i] == s[i] by {
            if i < t.len() {
                assert(b[2 * i] == c[2 * i] && b[2 * i + 1] == c[2 * i + 1]);
                assert(u16s_decode(c)[i] == t[i]);
            }
        }
        assert(u16s_decode(b) =~= s);
    }
}

/// Encoding what an even run of bytes decodes to gives the run back.
pub proof fn lemma_u16s_decode(b: Seq<u8>)
    requires
        b.len() % 2 == 0,
    ensures
        u16s_bytes(u16s_decode(b)) == b,
    decreases b.len(),
{
    if b.len() > 0 {
        let n = b.len() as int;
        let a = b.subrange(0, n - 2);
        lemma_u16s_decode(a);
        assert(u16s_decode(b).drop_last() =~= u16s_decode(a));
        lemma_u16_bytes(0, b[n - 2], b[n - 1]);
        assert(b =~= a + seq![b[n - 2], b[n - 1]]);
    } else {
        assert(u16s_decode(b) =~= Seq::<u16>::empty());
    }
}

/// Decoding the bytes of a run of `u64` values gives the run back.
pub proof fn lemma_u64s_round_trip(s: Seq<u64>)
    ensures
        u64s_decode(u64s_bytes(s)) == s,
    decreases s.len(),
{
    lemma_u64s_len(s);
    if s.len() > 0 {
        let t = s.drop_last();
        lemma_u64s_round_trip(t);
        lemma_u64s_len(t);
        let b = u64s_bytes(s);
        let c = u64s_bytes(t);
        lemma_u64_bytes(s.last(), u64_bytes(0));
        assert forall|i: int| 0 <= i < s.len() implies u64s_decode(b)[i] == s[i] by {
            if i < t.len() {
                assert(be_u64_at(b, 8 * i) == be_u64_at(c, 8 * i));
                assert(u64s_decode(c)[i] == t[i]);
            } else {
                assert(be_u64_at(b, 8 * i) == be_u64_at(u64_bytes(s.last()), 0));
            }
        }
        assert(u64s_decode(b) =~= s);
    }
}

/// Encoding what a run of bytes, a multiple of eight long, decodes to gives the run back.
pub proof fn lemma_u64s_decode(b: Seq<u8>)
    requires
        b.len() % 8 == 0,
    ensures
        u64s_bytes(u64s_decode(b)) == b,
    decreases b.len(),
{
    if b.len() > 0 {
        let n = b.len() as int;
        let a = b.subrange(0, n - 8);
        let w = b.subrange(n - 8, n);
        lemma_u64s_decode(a);
        assert(u64s_decode(b).drop_last() =~= u64s_decode(a));
        lemma_u64_bytes(0, w);
        assert(be_u64_at(b, n - 8) == be_u64_at(w, 0));
        assert(b =~= a + w);
    } else {
        assert(u64s_decode(b) =~= Seq::<u64>::empty());
    }
}

} // verus!
