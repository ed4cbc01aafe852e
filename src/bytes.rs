use vstd::prelude::*;

verus! {

/// The little-endian value of the two bytes at `p`.
pub open spec fn u16_at(b: Seq<u8>, p: int) -> u16 {
    (b[p] + 256 * b[p + 1]) as u16
}

/// The little-endian value of the four bytes at `p`.
pub open spec fn u32_at(b: Seq<u8>, p: int) -> u32 {
    (b[p] + 256 * b[p + 1] + 65536 * b[p + 2] + 16777216 * b[p + 3]) as u32
}

/// The little-endian value of the eight bytes at `p`.
pub open spec fn u64_at(b: Seq<u8>, p: int) -> u64 {
    (u32_at(b, p) + 4294967296 * u32_at(b, p + 4)) as u64
}

/// The little-endian encoding of a `u16`.
pub open spec fn le16(v: u16) -> Seq<u8> {
    seq![(v % 256) as u8, (v / 256) as u8]
}

/// The little-endian encoding of a `u32`.
pub open spec fn le32(v: u32) -> Seq<u8> {
    seq![(v % 256) as u8, ((v / 256) % 256) as u8, ((v / 65536) % 256) as u8, (v / 16777216) as u8]
}

/// The little-endian encoding of a `u64`.
pub open spec fn le64(v: u64) -> Seq<u8> {
    le32((v % 4294967296) as u32) + le32((v / 4294967296) as u32)
}

pub proof fn lemma_le16(b: Seq<u8>, p: int, v: u16)
    requires
        0 <= p,
        p + 2 <= b.len(),
        b.subrange(p, p + 2) == le16(v),
    ensures
        u16_at(b, p) == v,
{
    assert(b[p] == b.subrange(p, p + 2)[0]);
    assert(b[p + 1] == b.subrange(p, p + 2)[1]);
    assert(v == v % 256 + 256 * (v / 256));
}

pub proof fn lemma_le32(b: Seq<u8>, p: int, v: u32)
    requires
        0 <= p,
        p + 4 <= b.len(),
        b.subrange(p, p + 4) == le32(v),
    ensures
        u32_at(b, p) == v,
{
    assert(b[p] == b.subrange(p, p + 4)[0]);
    assert(b[p + 1] == b.subrange(p, p + 4)[1]);
    assert(b[p + 2] == b.subrange(p, p + 4)[2]);
    assert(b[p + 3] == b.subrange(p, p + 4)[3]);
    assert(v == v % 256 + 256 * ((v / 256) % 256) + 65536 * ((v / 65536) % 256) + 16777216 * (v
        / 16777216)) by (bit_vector);
}

pub proof fn lemma_le64(b: Seq<u8>, p: int, v: u64)
    requires
        0 <= p,
        p + 8 <= b.len(),
        b.subrange(p, p + 8) == le64(v),
    ensures
        u64_at(b, p) == v,
{
    let lo = (v % 4294967296) as u32;
    let hi = (v / 4294967296) as u32;
    assert(b.subrange(p, p + 4) =~= le64(v).subrange(0, 4));
    assert(le64(v).subrange(0, 4) =~= le32(lo));
    assert(b.subrange(p + 4, p + 8) =~= le64(v).subrange(4, 8));
    assert(le64(v).subrange(4, 8) =~= le32(hi));
    lemma_le32(b, p, lo);
    lemma_le32(b, p + 4, hi);
    assert(v == v % 4294967296 + 4294967296 * (v / 4294967296));
}

pub fn read_u16(b: &[u8], p: usize) -> (r: u16)
    requires
        p + 2 <= b@.len(),
    ensures
        r == u16_at(b@, p as int),
{
    (b[p] as u16) + (b[p + 1] as u16) * 256
}

pub fn read_u32(b: &[u8], p: usize) -> (r: u32)
    requires
        p + 4 <= b@.len(),
    ensures
        r == u32_at(b@, p as int),
{
    (b[p] as u32) + (b[p + 1] as u32) * 256 + (b[p + 2] as u32) * 65536 + (b[p + 3] as u32)
        * 16777216
}

pub fn read_u64(b: &[u8], p: usize) -> (r: u64)
    requires
        p + 8 <= b@.len(),
    ensures
        r == u64_at(b@, p as int),
{
    let n: usize = b.len();
    let lo = read_u32(b, p);
    let hi = read_u32(b, p + 4);
    (lo as u64) + (hi as u64) * 4294967296
}

pub fn write_u8(out: &mut Vec<u8>, v: u8)
    ensures
        final(out)@ == old(out)@ + seq![v],
{
    out.push(v);
    assert(final(out)@ =~= old(out)@ + seq![v]);
}

pub fn write_u16(out: &mut Vec<u8>, v: u16)
    ensures
        final(out)@ == old(out)@ + le16(v),
{
    out.push((v % 256) as u8);
    out.push((v / 256) as u8);
    assert(final(out)@ =~= old(out)@ + le16(v));
}

pub fn write_u32(out: &mut Vec<u8>, v: u32)
    ensures
        final(out)@ == old(out)@ + le32(v),
{
    out.push((v % 256) as u8);
    out.push(((v / 256) % 256) as u8);
    out.push(((v / 65536) % 256) as u8);
    out.push((v / 16777216) as u8);
    assert(final(out)@ =~= old(out)@ + le32(v));
}

pub fn write_u64(out: &mut Vec<u8>, v: u64)
    ensures
        final(out)@ == old(out)@ + le64(v),
{
    write_u32(out, (v % 4294967296) as u32);
    write_u32(out, (v / 4294967296) as u32);
    assert(final(out)@ =~= old(out)@ + le64(v));
}

pub fn write_pair(out: &mut Vec<u8>, a: u8, b: u8)
    ensures
        final(out)@ == old(out)@ + seq![a, b],
{
    out.push(a);
    out.push(b);
    assert(final(out)@ =~= old(out)@ + seq![a, b]);
}

/// Appends a byte string.
pub fn write_bytes(out: &mut Vec<u8>, b: &[u8])
    ensures
        final(out)@ == old(out)@ + b@,
{
    let mut i: usize = 0;
    while i < b.len()
        invariant
            i <= b@.len(),
            out@ == old(out)@ + b@.subrange(0, i as int),
        decreases b@.len() - i,
    {
        out.push(b[i]);
        i += 1;
        assert(out@ =~= old(out)@ + b@.subrange(0, i as int));
    }
    assert(b@.subrange(0, b@.len() as int) =~= b@);
}

/// Copies `len` bytes starting at `p`.
pub fn copy_range(b: &[u8], p: usize, len: usize) -> (r: Vec<u8>)
    requires
        p + len <= b@.len(),
    ensures
        r@ == b@.subrange(p as int, p + len),
{
    let n: usize = b.len();
    let mut r: Vec<u8> = Vec::new();
    let mut i: usize = 0;
    while i < len
        invariant
            i <= len,
            n == b@.len(),
            p + len <= b@.len(),
            r@ == b@.subrange(p as int, p + i),
        decreases len - i,
    {
        r.push(b[p + i]);
        i += 1;
        assert(r@ =~= b@.subrange(p as int, p + i));
    }
    r
}

} // verus!
