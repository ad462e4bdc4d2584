//! Little-endian byte access on `Vec<u8>`, with exact specifications.
//!
//! The linker both decodes fixed-width fields from input objects and
//! encodes them into the output image.  Every executable function here is
//! pinned to a spec function over `Seq<u8>`, so the stages built on top can
//! state their results as pure functions of the input bytes.

use vstd::prelude::*;

verus! {

// ------------------------------------------------------------------
// Decoding
// ------------------------------------------------------------------

/// The 16-bit little-endian value whose bytes sit at `off`.
pub open spec fn le16_at(s: Seq<u8>, off: int) -> u16 {
    (s[off] as u16) | ((s[off + 1] as u16) << 8)
}

/// The 32-bit little-endian value whose bytes sit at `off`.
pub open spec fn le32_at(s: Seq<u8>, off: int) -> u32 {
    (s[off] as u32) | ((s[off + 1] as u32) << 8) | ((s[off + 2] as u32) << 16) | ((s[off + 3]
        as u32) << 24)
}

/// The 64-bit little-endian value whose bytes sit at `off`.
pub open spec fn le64_at(s: Seq<u8>, off: int) -> u64 {
    (s[off] as u64) | ((s[off + 1] as u64) << 8) | ((s[off + 2] as u64) << 16) | ((s[off + 3]
        as u64) << 24) | ((s[off + 4] as u64) << 32) | ((s[off + 5] as u64) << 40) | ((s[off + 6]
        as u64) << 48) | ((s[off + 7] as u64) << 56)
}

pub fn read_u16_at(b: &Vec<u8>, off: usize) -> (r: u16)
    requires
        off + 2 <= b@.len(),
    ensures
        r == le16_at(b@, off as int),
{
    let _n = b.len();
    (b[off] as u16) | ((b[off + 1] as u16) << 8)
}

pub fn read_u32_at(b: &Vec<u8>, off: usize) -> (r: u32)
    requires
        off + 4 <= b@.len(),
    ensures
        r == le32_at(b@, off as int),
{
    let _n = b.len();
    (b[off] as u32) | ((b[off + 1] as u32) << 8) | ((b[off + 2] as u32) << 16) | ((b[off + 3]
        as u32) << 24)
}

pub fn read_u64_at(b: &Vec<u8>, off: usize) -> (r: u64)
    requires
        off + 8 <= b@.len(),
    ensures
        r == le64_at(b@, off as int),
{
    let _n = b.len();
    (b[off] as u64) | ((b[off + 1] as u64) << 8) | ((b[off + 2] as u64) << 16) | ((b[off + 3]
        as u64) << 24) | ((b[off + 4] as u64) << 32) | ((b[off + 5] as u64) << 40) | ((b[off + 6]
        as u64) << 48) | ((b[off + 7] as u64) << 56)
}

// ------------------------------------------------------------------
// Encoding
// ------------------------------------------------------------------

/// The two little-endian bytes of a 16-bit value.
pub open spec fn u16_le_bytes(v: u16) -> Seq<u8> {
    seq![v as u8, (v >> 8) as u8]
}

/// The four little-endian bytes of a 32-bit value.
pub open spec fn u32_le_bytes(v: u32) -> Seq<u8> {
    seq![v as u8, (v >> 8) as u8, (v >> 16) as u8, (v >> 24) as u8]
}

/// The eight little-endian bytes of a 64-bit value.
pub open spec fn u64_le_bytes(v: u64) -> Seq<u8> {
    seq![
        v as u8,
        (v >> 8) as u8,
        (v >> 16) as u8,
        (v >> 24) as u8,
        (v >> 32) as u8,
        (v >> 40) as u8,
        (v >> 48) as u8,
        (v >> 56) as u8,
    ]
}

/// `s` with the bytes of `v` laid over it starting at `off`; everything
/// else is unchanged.
pub open spec fn splice(s: Seq<u8>, off: int, v: Seq<u8>) -> Seq<u8> {
    Seq::new(s.len(), |i: int| if off <= i < off + v.len() { v[i - off] } else { s[i] })
}

/// Decoding the spliced-in bytes of a 32-bit value gives the value back.
pub proof fn lemma_le32_roundtrip(v: u32)
    ensures
        le32_at(u32_le_bytes(v), 0) == v,
{
    assert(((v as u8) as u32) | ((((v >> 8) as u8) as u32) << 8) | ((((v >> 16) as u8) as u32)
        << 16) | ((((v >> 24) as u8) as u32) << 24) == v) by (bit_vector);
}

pub fn write_u32_at(buf: &mut Vec<u8>, off: usize, v: u32)
    requires
        off + 4 <= old(buf)@.len(),
    ensures
        final(buf)@ == splice(old(buf)@, off as int, u32_le_bytes(v)),
{
    let _n = buf.len();
    buf.set(off, v as u8);
    buf.set(off + 1, (v >> 8) as u8);
    buf.set(off + 2, (v >> 16) as u8);
    buf.set(off + 3, (v >> 24) as u8);
    proof {
        assert(buf@ =~= splice(old(buf)@, off as int, u32_le_bytes(v)));
    }
}

/// Decoding the spliced-in bytes of a 64-bit value gives the value back.
pub proof fn lemma_le64_roundtrip(v: u64)
    ensures
        le64_at(u64_le_bytes(v), 0) == v,
{
    assert(((v as u8) as u64) | ((((v >> 8) as u8) as u64) << 8) | ((((v >> 16) as u8) as u64)
        << 16) | ((((v >> 24) as u8) as u64) << 24) | ((((v >> 32) as u8) as u64) << 32) | ((((v
        >> 40) as u8) as u64) << 40) | ((((v >> 48) as u8) as u64) << 48) | ((((v >> 56) as u8)
        as u64) << 56) == v) by (bit_vector);
}

/// If eight consecutive bytes of `img` are the little-endian bytes of
/// `v`, decoding there gives `v` back.
pub proof fn lemma_le64_read(img: Seq<u8>, at: int, v: u64)
    requires
        forall|k: int| 0 <= k < 8 ==> img[at + k] == u64_le_bytes(v)[k],
    ensures
        le64_at(img, at) == v,
{
    lemma_le64_roundtrip(v);
    assert(le64_at(img, at) == le64_at(u64_le_bytes(v), 0));
}

/// If four consecutive bytes of `img` are the little-endian bytes of
/// `v`, decoding there gives `v` back.
pub proof fn lemma_le32_read(img: Seq<u8>, at: int, v: u32)
    requires
        forall|k: int| 0 <= k < 4 ==> img[at + k] == u32_le_bytes(v)[k],
    ensures
        le32_at(img, at) == v,
{
    lemma_le32_roundtrip(v);
    assert(le32_at(img, at) == le32_at(u32_le_bytes(v), 0));
}

pub fn push_u16_le(buf: &mut Vec<u8>, v: u16)
    ensures
        final(buf)@ == old(buf)@ + u16_le_bytes(v),
{
    buf.push(v as u8);
    buf.push((v >> 8) as u8);
    proof {
        assert(buf@ =~= old(buf)@ + u16_le_bytes(v));
    }
}

pub fn push_u32_le(buf: &mut Vec<u8>, v: u32)
    ensures
        final(buf)@ == old(buf)@ + u32_le_bytes(v),
{
    buf.push(v as u8);
    buf.push((v >> 8) as u8);
    buf.push((v >> 16) as u8);
    buf.push((v >> 24) as u8);
    proof {
        assert(buf@ =~= old(buf)@ + u32_le_bytes(v));
    }
}

pub fn push_u64_le(buf: &mut Vec<u8>, v: u64)
    ensures
        final(buf)@ == old(buf)@ + u64_le_bytes(v),
{
    buf.push(v as u8);
    buf.push((v >> 8) as u8);
    buf.push((v >> 16) as u8);
    buf.push((v >> 24) as u8);
    buf.push((v >> 32) as u8);
    buf.push((v >> 40) as u8);
    buf.push((v >> 48) as u8);
    buf.push((v >> 56) as u8);
    proof {
        assert(buf@ =~= old(buf)@ + u64_le_bytes(v));
    }
}

// ------------------------------------------------------------------
// Block operations
// ------------------------------------------------------------------

/// Lay `n` bytes of `src` starting at `src_off` over `dst` at `dst_off`.
pub fn copy_range(dst: &mut Vec<u8>, dst_off: usize, src: &Vec<u8>, src_off: usize, n: usize)
    requires
        dst_off + n <= old(dst)@.len(),
        src_off + n <= src@.len(),
    ensures
        final(dst)@ == splice(old(dst)@, dst_off as int, src@.subrange(src_off as int, src_off + n)),
{
    let dlen = dst.len();
    let slen = src.len();
    let mut i: usize = 0;
    while i < n
        invariant
            i <= n,
            dlen == dst@.len(),
            slen == src@.len(),
            dst_off + n <= dst@.len(),
            dst@.len() == old(dst)@.len(),
            src_off + n <= src@.len(),
            forall|j: int|
                0 <= j < dst@.len() ==> dst@[j] == (if dst_off <= j < dst_off + i {
                    src@[j - dst_off + src_off]
                } else {
                    old(dst)@[j]
                }),
        decreases n - i,
    {
        let v = src[src_off + i];
        dst.set(dst_off + i, v);
        i += 1;
    }
    proof {
        assert(dst@ =~= splice(old(dst)@, dst_off as int, src@.subrange(src_off as int, src_off + n)));
    }
}

/// Lay the whole of `src` over `dst` at `dst_off`.
pub fn write_bytes_at(dst: &mut Vec<u8>, dst_off: usize, src: &Vec<u8>)
    requires
        dst_off + src@.len() <= old(dst)@.len(),
    ensures
        final(dst)@ == splice(old(dst)@, dst_off as int, src@),
{
    let n = src.len();
    copy_range(dst, dst_off, src, 0, n);
    proof {
        assert(src@.subrange(0, n as int) =~= src@);
    }
}

/// A fresh vector of `n` zero bytes.
pub fn zeroes(n: usize) -> (r: Vec<u8>)
    ensures
        r@ == Seq::new(n as nat, |i: int| 0u8),
{
    let mut v: Vec<u8> = Vec::new();
    let mut i: usize = 0;
    while i < n
        invariant
            i <= n,
            v@ == Seq::new(i as nat, |j: int| 0u8),
        decreases n - i,
    {
        v.push(0u8);
        proof {
            assert(v@ =~= Seq::new((i + 1) as nat, |j: int| 0u8));
        }
        i += 1;
    }
    v
}

/// An owned copy of `src[lo..hi]`.
pub fn extract_range(src: &Vec<u8>, lo: usize, hi: usize) -> (r: Vec<u8>)
    requires
        lo <= hi <= src@.len(),
    ensures
        r@ == src@.subrange(lo as int, hi as int),
{
    let mut v: Vec<u8> = Vec::new();
    let mut i: usize = lo;
    while i < hi
        invariant
            lo <= i <= hi <= src@.len(),
            v@ == src@.subrange(lo as int, i as int),
        decreases hi - i,
    {
        v.push(src[i]);
        proof {
            assert(v@ =~= src@.subrange(lo as int, (i + 1) as int));
        }
        i += 1;
    }
    v
}

/// An owned copy of `src`.
pub fn clone_bytes(src: &Vec<u8>) -> (r: Vec<u8>)
    ensures
        r@ == src@,
{
    let n = src.len();
    let r = extract_range(src, 0, n);
    proof {
        assert(src@.subrange(0, n as int) =~= src@);
    }
    r
}

/// Byte-wise equality of two buffers.
pub fn bytes_eq(a: &Vec<u8>, b: &Vec<u8>) -> (r: bool)
    ensures
        r == (a@ == b@),
{
    let n = a.len();
    if n != b.len() {
        return false;
    }
    let mut i: usize = 0;
    while i < n
        invariant
            i <= n,
            n == a@.len(),
            n == b@.len(),
            forall|j: int| 0 <= j < i ==> a@[j] == b@[j],
        decreases n - i,
    {
        if a[i] != b[i] {
            return false;
        }
        i += 1;
    }
    proof {
        assert(a@ =~= b@);
    }
    true
}

} // verus!
