//! Little- and big-endian integer fields inside byte buffers.
use vstd::prelude::*;

verus! {

/// The little-endian `u32` stored in `s[off..off + 4]`.
pub open spec fn spec_le32(s: Seq<u8>, off: int) -> u32 {
    (s[off] as u32) | ((s[off + 1] as u32) << 8u32) | ((s[off + 2] as u32) << 16u32) | ((
    s[off + 3] as u32) << 24u32)
}

/// The big-endian `u32` stored in `s[off..off + 4]`.
pub open spec fn spec_be32(s: Seq<u8>, off: int) -> u32 {
    ((s[off] as u32) << 24u32) | ((s[off + 1] as u32) << 16u32) | ((s[off + 2] as u32) << 8u32)
        | (s[off + 3] as u32)
}

/// The little-endian `u64` stored in `s[off..off + 8]`.
pub open spec fn spec_le64(s: Seq<u8>, off: int) -> u64 {
    (spec_le32(s, off) as u64) | ((spec_le32(s, off + 4) as u64) << 32u64)
}

/// The big-endian `u64` stored in `s[off..off + 8]`.
pub open spec fn spec_be64(s: Seq<u8>, off: int) -> u64 {
    ((spec_be32(s, off) as u64) << 32u64) | (spec_be32(s, off + 4) as u64)
}

/// The four little-endian bytes of `v`.
pub open spec fn spec_le32_bytes(v: u32) -> Seq<u8> {
    seq![(v & 0xff) as u8, ((v >> 8u32) & 0xff) as u8, ((v >> 16u32) & 0xff) as u8, ((v >> 24u32) & 0xff) as u8]
}

/// The four big-endian bytes of `v`.
pub open spec fn spec_be32_bytes(v: u32) -> Seq<u8> {
    seq![((v >> 24u32) & 0xff) as u8, ((v >> 16u32) & 0xff) as u8, ((v >> 8u32) & 0xff) as u8, (v & 0xff) as u8]
}

/// The eight little-endian bytes of `v`.
pub open spec fn spec_le64_bytes(v: u64) -> Seq<u8> {
    spec_le32_bytes((v & 0xffff_ffff) as u32) + spec_le32_bytes((v >> 32u64) as u32)
}

/// The eight big-endian bytes of `v`.
pub open spec fn spec_be64_bytes(v: u64) -> Seq<u8> {
    spec_be32_bytes((v >> 32u64) as u32) + spec_be32_bytes((v & 0xffff_ffff) as u32)
}

/// `s` with `bytes` written over it from `off` on.
pub open spec fn spec_splice(s: Seq<u8>, off: int, bytes: Seq<u8>) -> Seq<u8> {
    s.subrange(0, off) + bytes + s.subrange(off + bytes.len(), s.len() as int)
}

/// Reading back the little-endian bytes of `v` gives `v`.
pub proof fn lemma_le32_roundtrip(v: u32)
    ensures
        spec_le32(spec_le32_bytes(v), 0) == v,
        spec_le32_bytes(v).len() == 4,
{
    let b0 = (v & 0xff) as u8;
    let b1 = ((v >> 8u32) & 0xff) as u8;
    let b2 = ((v >> 16u32) & 0xff) as u8;
    let b3 = ((v >> 24u32) & 0xff) as u8;
    assert(((b0 as u32) | ((b1 as u32) << 8u32) | ((b2 as u32) << 16u32) | ((b3 as u32) << 24u32))
        == v) by (bit_vector)
        requires
            b0 == (v & 0xff) as u8,
            b1 == ((v >> 8u32) & 0xff) as u8,
            b2 == ((v >> 16u32) & 0xff) as u8,
            b3 == ((v >> 24u32) & 0xff) as u8,
    ;
}

/// Reading back the big-endian bytes of `v` gives `v`.
pub proof fn lemma_be32_roundtrip(v: u32)
    ensures
        spec_be32(spec_be32_bytes(v), 0) == v,
        spec_be32_bytes(v).len() == 4,
{
    let b0 = ((v >> 24u32) & 0xff) as u8;
    let b1 = ((v >> 16u32) & 0xff) as u8;
    let b2 = ((v >> 8u32) & 0xff) as u8;
    let b3 = (v & 0xff) as u8;
    assert((((b0 as u32) << 24u32) | ((b1 as u32) << 16u32) | ((b2 as u32) << 8u32) | (b3 as u32))
        == v) by (bit_vector)
        requires
            b0 == ((v >> 24u32) & 0xff) as u8,
            b1 == ((v >> 16u32) & 0xff) as u8,
            b2 == ((v >> 8u32) & 0xff) as u8,
            b3 == (v & 0xff) as u8,
    ;
}

/// Reads the little-endian `u32` at `off`.
pub fn read_le32(s: &[u8], off: usize) -> (r: u32)
    requires
        off + 4 <= s@.len(),
    ensures
        r == spec_le32(s@, off as int),
{
    (s[off] as u32) | ((s[off + 1] as u32) << 8u32) | ((s[off + 2] as u32) << 16u32) | ((s[off
        + 3] as u32) << 24u32)
}

/// Reads the big-endian `u32` at `off`.
pub fn read_be32(s: &[u8], off: usize) -> (r: u32)
    requires
        off + 4 <= s@.len(),
    ensures
        r == spec_be32(s@, off as int),
{
    ((s[off] as u32) << 24u32) | ((s[off + 1] as u32) << 16u32) | ((s[off + 2] as u32) << 8u32)
        | (s[off + 3] as u32)
}

/// Reads the little-endian `u64` at `off`.
pub fn read_le64(s: &[u8], off: usize) -> (r: u64)
    requires
        off + 8 <= s@.len(),
    ensures
        r == spec_le64(s@, off as int),
{
    let n = s.len();
    let lo = read_le32(s, off);
    let hi = read_le32(s, off + 4);
    (lo as u64) | ((hi as u64) << 32u64)
}

/// Reads the big-endian `u64` at `off`.
pub fn read_be64(s: &[u8], off: usize) -> (r: u64)
    requires
        off + 8 <= s@.len(),
    ensures
        r == spec_be64(s@, off as int),
{
    let n = s.len();
    let hi = read_be32(s, off);
    let lo = read_be32(s, off + 4);
    ((hi as u64) << 32u64) | (lo as u64)
}

/// The four little-endian bytes of `v`.
pub fn le32_bytes(v: u32) -> (r: Vec<u8>)
    ensures
        r@ == spec_le32_bytes(v),
{
    let mut r: Vec<u8> = Vec::new();
    r.push((v & 0xff) as u8);
    r.push(((v >> 8u32) & 0xff) as u8);
    r.push(((v >> 16u32) & 0xff) as u8);
    r.push(((v >> 24u32) & 0xff) as u8);
    r
}

/// The four big-endian bytes of `v`.
pub fn be32_bytes(v: u32) -> (r: Vec<u8>)
    ensures
        r@ == spec_be32_bytes(v),
{
    let mut r: Vec<u8> = Vec::new();
    r.push(((v >> 24u32) & 0xff) as u8);
    r.push(((v >> 16u32) & 0xff) as u8);
    r.push(((v >> 8u32) & 0xff) as u8);
    r.push((v & 0xff) as u8);
    r
}

/// The eight little-endian bytes of `v`.
pub fn le64_bytes(v: u64) -> (r: Vec<u8>)
    ensures
        r@ == spec_le64_bytes(v),
{
    let mut r = le32_bytes((v & 0xffff_ffff) as u32);
    let mut hi = le32_bytes((v >> 32u64) as u32);
    r.append(&mut hi);
    r
}

/// The eight big-endian bytes of `v`.
pub fn be64_bytes(v: u64) -> (r: Vec<u8>)
    ensures
        r@ == spec_be64_bytes(v),
{
    let mut r = be32_bytes((v >> 32u64) as u32);
    let mut lo = be32_bytes((v & 0xffff_ffff) as u32);
    r.append(&mut lo);
    r
}

/// Writes `bytes` over `data` from `off` on.
pub fn splice_into(data: &mut Vec<u8>, off: usize, bytes: &[u8])
    requires
        off + bytes@.len() <= old(data)@.len(),
    ensures
        final(data)@ == spec_splice(old(data)@, off as int, bytes@),
{
    let n = data.len();
    let mut i: usize = 0;
    while i < bytes.len()
        invariant
            n == data@.len(),
            off + bytes@.len() <= data@.len(),
            data@.len() == old(data)@.len(),
            i <= bytes@.len(),
            data@ == spec_splice(old(data)@, off as int, bytes@.subrange(0, i as int)),
        decreases bytes@.len() - i,
    {
        data.set(off + i, bytes[i]);
        i += 1;
        assert(data@ =~= spec_splice(old(data)@, off as int, bytes@.subrange(0, i as int)));
    }
    assert(bytes@.subrange(0, bytes@.len() as int) =~= bytes@);
}

/// Whether `pat` occurs in `data` at `off`.
pub open spec fn spec_starts_with_at(data: Seq<u8>, off: int, pat: Seq<u8>) -> bool {
    0 <= off && off + pat.len() <= data.len() && data.subrange(off, off + pat.len()) == pat
}

/// Whether `pat` occurs in `data` at `off`.
pub fn bytes_match_at(data: &[u8], off: usize, pat: &[u8]) -> (r: bool)
    ensures
        r == spec_starts_with_at(data@, off as int, pat@),
{
    if off > data.len() || pat.len() > data.len() - off {
        return false;
    }
    let n = data.len();
    let mut i: usize = 0;
    while i < pat.len()
        invariant
            n == data@.len(),
            i <= pat@.len(),
            off + pat@.len() <= data@.len(),
            forall|j: int| 0 <= j < i ==> data@[off + j] == pat@[j],
        decreases pat@.len() - i,
    {
        if data[off + i] != pat[i] {
            assert(data@.subrange(off as int, off + pat@.len())[i as int] != pat@[i as int]);
            return false;
        }
        i += 1;
    }
    assert(data@.subrange(off as int, off + pat@.len()) =~= pat@);
    true
}

/// A vector of `n` zero bytes.
pub fn zeros(n: usize) -> (r: Vec<u8>)
    ensures
        r@ == Seq::new(n as nat, |i: int| 0u8),
{
    let mut r: Vec<u8> = Vec::new();
    let mut i: usize = 0;
    while i < n
        invariant
            i <= n,
            r@ == Seq::new(i as nat, |j: int| 0u8),
        decreases n - i,
    {
        r.push(0u8);
        i += 1;
        assert(r@ =~= Seq::new(i as nat, |j: int| 0u8));
    }
    r
}

/// Copies a slice into a new vector.
pub fn slice_to_vec(s: &[u8]) -> (r: Vec<u8>)
    ensures
        r@ == s@,
{
    let mut r: Vec<u8> = Vec::new();
    let mut i: usize = 0;
    while i < s.len()
        invariant
            i <= s@.len(),
            r@ == s@.subrange(0, i as int),
        decreases s@.len() - i,
    {
        r.push(s[i]);
        i += 1;
        assert(r@ =~= s@.subrange(0, i as int));
    }
    assert(s@.subrange(0, s@.len() as int) =~= s@);
    r
}

/// Appends a slice to a vector.
pub fn append_slice(v: &mut Vec<u8>, s: &[u8])
    ensures
        final(v)@ == old(v)@ + s@,
{
    let mut i: usize = 0;
    while i < s.len()
        invariant
            i <= s@.len(),
            v@ == old(v)@ + s@.subrange(0, i as int),
        decreases s@.len() - i,
    {
        v.push(s[i]);
        i += 1;
        assert(v@ =~= old(v)@ + s@.subrange(0, i as int));
    }
    assert(s@.subrange(0, s@.len() as int) =~= s@);
}

} // verus!
