//! Fixed-width integers in big- and little-endian byte order.

use vstd::prelude::*;

verus! {

/// The big-endian 32-bit value of `s[off..off + 4]`.
pub open spec fn be_u32_at(s: Seq<u8>, off: int) -> u32 {
    ((s[off] as u32) * 0x1000000 + (s[off + 1] as u32) * 0x10000 + (s[off + 2] as u32) * 0x100 + (s[off + 3] as u32)) as u32
}

/// The big-endian 64-bit value of `s[off..off + 8]`.
pub open spec fn be_u64_at(s: Seq<u8>, off: int) -> u64 {
    ((be_u32_at(s, off) as u64) * 0x100000000 + (be_u32_at(s, off + 4) as u64)) as u64
}

/// The little-endian 16-bit value of `s[off..off + 2]`.
pub open spec fn le_u16_at(s: Seq<u8>, off: int) -> u16 {
    ((s[off + 1] as u16) * 0x100 + (s[off] as u16)) as u16
}

/// The four big-endian bytes of `v`.
pub open spec fn be_bytes_u32(v: u32) -> Seq<u8> {
    seq![(v / 0x1000000) as u8, ((v / 0x10000) % 0x100) as u8, ((v / 0x100) % 0x100) as u8, (v % 0x100) as u8]
}

/// The two little-endian bytes of `v`.
pub open spec fn le_bytes_u16(v: u16) -> Seq<u8> {
    seq![(v % 0x100) as u8, (v / 0x100) as u8]
}

pub fn read_be_u32(s: &Vec<u8>, off: usize) -> (r: u32)
    requires
        off + 4 <= s@.len(),
    ensures
        r == be_u32_at(s@, off as int),
{
    assert(off + 4 <= s.len());
    let a = s[off] as u32;
    let b = s[off + 1] as u32;
    let c = s[off + 2] as u32;
    let d = s[off + 3] as u32;
    assert(a <= 255 && b <= 255 && c <= 255 && d <= 255);
    a * 0x1000000 + b * 0x10000 + c * 0x100 + d
}

pub fn read_be_u64(s: &Vec<u8>, off: usize) -> (r: u64)
    requires
        off + 8 <= s@.len(),
    ensures
        r == be_u64_at(s@, off as int),
{
    assert(off + 8 <= s.len());
    let hi = read_be_u32(s, off);
    let lo = read_be_u32(s, off + 4);
    (hi as u64) * 0x100000000 + (lo as u64)
}

pub fn read_le_u16(s: &Vec<u8>, off: usize) -> (r: u16)
    requires
        off + 2 <= s@.len(),
    ensures
        r == le_u16_at(s@, off as int),
{
    assert(off + 2 <= s.len());
    let hi = s[off + 1] as u16;
    let lo = s[off] as u16;
    assert(hi <= 255 && lo <= 255);
    hi * 0x100 + lo
}

/// Appends the four big-endian bytes of `v`.
pub fn push_be_u32(out: &mut Vec<u8>, v: u32)
    ensures
        final(out)@ == old(out)@ + be_bytes_u32(v),
{
    out.push((v / 0x1000000) as u8);
    out.push(((v / 0x10000) % 0x100) as u8);
    out.push(((v / 0x100) % 0x100) as u8);
    out.push((v % 0x100) as u8);
    assert(final(out)@ =~= old(out)@ + be_bytes_u32(v));
}

/// Appends the eight big-endian bytes of `v`.
pub fn push_be_u64(out: &mut Vec<u8>, v: u64)
    ensures
        final(out)@ == old(out)@ + be_bytes_u32((v / 0x100000000) as u32) + be_bytes_u32((v % 0x100000000) as u32),
{
    push_be_u32(out, (v / 0x100000000) as u32);
    push_be_u32(out, (v % 0x100000000) as u32);
}

/// Copies `src[src_off..src_off + k]` over `dst[dst_off..dst_off + k]`.
pub fn copy_range(dst: &mut Vec<u8>, dst_off: usize, src: &Vec<u8>, src_off: usize, k: usize)
    requires
        dst_off + k <= old(dst)@.len(),
        src_off + k <= src@.len(),
    ensures
        final(dst)@ == old(dst)@.subrange(0, dst_off as int) + src@.subrange(src_off as int, src_off + k)
            + old(dst)@.subrange(dst_off + k, old(dst)@.len() as int),
{
    let ghost orig = dst@;
    assert(dst_off + k <= dst.len() && src_off + k <= src.len());
    let mut i: usize = 0;
    while i < k
        invariant
            i <= k,
            dst_off + k <= usize::MAX,
            src_off + k <= usize::MAX,
            dst_off + k <= orig.len(),
            src_off + k <= src@.len(),
            dst@.len() == orig.len(),
            forall|j: int| 0 <= j < dst_off ==> dst@[j] == orig[j],
            forall|j: int| dst_off <= j < dst_off + i ==> dst@[j] == src@[src_off + j - dst_off],
            forall|j: int| dst_off + i <= j < orig.len() ==> dst@[j] == orig[j],
        decreases k - i,
    {
        dst.set(dst_off + i, src[src_off + i]);
        i = i + 1;
    }
    assert(dst@ =~= orig.subrange(0, dst_off as int) + src@.subrange(src_off as int, src_off + k)
        + orig.subrange(dst_off + k, orig.len() as int));
}

/// A buffer of `n` copies of `v`.
pub fn filled(v: u8, n: usize) -> (r: Vec<u8>)
    ensures
        r@ == Seq::new(n as nat, |i: int| v),
{
    let mut r: Vec<u8> = Vec::new();
    let mut i: usize = 0;
    while i < n
        invariant
            i <= n,
            r@ == Seq::new(i as nat, |j: int| v),
        decreases n - i,
    {
        r.push(v);
        i = i + 1;
        assert(r@ =~= Seq::new(i as nat, |j: int| v));
    }
    r
}

} // verus!
