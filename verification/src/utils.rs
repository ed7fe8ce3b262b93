//! Alignment arithmetic and small byte-slice helpers.
use vstd::prelude::*;
use crate::bytes::{bytes_match_at, read_le32, spec_le32, spec_starts_with_at};

verus! {

/// `v` rounded up to a multiple of `a`.
pub open spec fn spec_align_to(v: int, a: int) -> int {
    (v + a - 1) / a * a
}

/// The rounded value lies in `[v, v + a)` and is a multiple of `a`.
pub proof fn lemma_align_to(v: int, a: int)
    requires
        v >= 0,
        a > 0,
    ensures
        v <= spec_align_to(v, a) <= v + a - 1,
        spec_align_to(v, a) % a == 0,
{
    let x = v + a - 1;
    assert(x / a * a <= x) by (nonlinear_arith)
        requires
            a > 0,
            x >= 0,
    ;
    assert(x / a * a > x - a) by (nonlinear_arith)
        requires
            a > 0,
            x >= 0,
    ;
    assert((x / a * a) % a == 0) by (nonlinear_arith)
        requires
            a > 0,
            x >= 0,
    ;
}

/// Rounds `v` up to a multiple of `a`.
pub fn align_to(v: usize, a: usize) -> (r: usize)
    requires
        a > 0,
        v + a <= usize::MAX,
    ensures
        r == spec_align_to(v as int, a as int),
        v <= r <= v + a - 1,
        r % a == 0,
{
    proof {
        lemma_align_to(v as int, a as int);
    }
    let x = v + a - 1;
    let q = x / a;
    assert(q * a <= x) by (nonlinear_arith)
        requires
            a > 0,
            q == x / a,
    ;
    q * a
}

/// The number of bytes that pads `v` to a multiple of `a`.
pub fn align_padding(v: usize, a: usize) -> (r: usize)
    requires
        a > 0,
        v + a <= usize::MAX,
    ensures
        r == spec_align_to(v as int, a as int) - v,
        r < a,
        (v + r) % (a as int) == 0,
{
    let t = align_to(v, a);
    t - v
}

/// Random access to fields inside a byte slice.
pub trait SliceExt {
    /// The little-endian `u32` at `offset`, if four bytes are there.
    fn u32_at(&self, offset: usize) -> (r: Option<u32>)
        requires
            offset + 4 <= usize::MAX,
    ;

    /// Whether `pattern` occurs at `offset`.
    fn starts_with_at(&self, offset: usize, pattern: &[u8]) -> bool;
}

impl SliceExt for [u8] {
    fn u32_at(&self, offset: usize) -> (r: Option<u32>)
        ensures
            r == (if offset + 4 <= self@.len() {
                Some(spec_le32(self@, offset as int))
            } else {
                None::<u32>
            }),
    {
        if offset + 4 <= self.len() {
            Some(read_le32(self, offset))
        } else {
            None
        }
    }

    fn starts_with_at(&self, offset: usize, pattern: &[u8]) -> (r: bool)
        ensures
            r == (offset <= self@.len() && spec_starts_with_at(self@, offset as int, pattern@)),
    {
        bytes_match_at(self, offset, pattern)
    }
}

/// The length of `buf` without its trailing zero bytes.
pub open spec fn spec_trim_end_len(buf: Seq<u8>) -> int
    decreases buf.len(),
{
    if buf.len() == 0 {
        0
    } else if buf.last() == 0 {
        spec_trim_end_len(buf.drop_last())
    } else {
        buf.len() as int
    }
}

/// `buf` without its trailing zero bytes.
pub fn trim_end(buf: &[u8]) -> (r: &[u8])
    ensures
        r@ == buf@.subrange(0, spec_trim_end_len(buf@)),
        0 <= spec_trim_end_len(buf@) <= buf@.len(),
{
    let mut end = buf.len();
    assert(buf@.subrange(0, end as int) =~= buf@);
    while end > 0 && buf[end - 1] == 0
        invariant
            end <= buf@.len(),
            spec_trim_end_len(buf@) == spec_trim_end_len(buf@.subrange(0, end as int)),
        decreases end,
    {
        assert(buf@.subrange(0, end as int).drop_last() =~= buf@.subrange(0, end - 1));
        end -= 1;
    }
    proof {
        let s = buf@.subrange(0, end as int);
        assert(buf@.subrange(0, buf@.len() as int) =~= buf@);
        if end > 0 {
            assert(s.last() != 0);
        }
    }
    &buf[0..end]
}

/// Whether `buf` looks like a raw LZMA stream: properties byte 0x5d, a
/// power-of-two dictionary size and an unknown (all ones) uncompressed size.
pub open spec fn spec_guess_lzma(buf: Seq<u8>) -> bool {
    &&& buf.len() > 13
    &&& buf[0] == 0x5d
    &&& spec_le32(buf, 1) != 0
    &&& spec_le32(buf, 1) & ((spec_le32(buf, 1) - 1) as u32) == 0
    &&& forall|i: int| 5 <= i < 13 ==> buf[i] == 0xff
}

/// Heuristic detection of a raw LZMA stream.
pub fn guess_lzma(buf: &[u8]) -> (r: bool)
    ensures
        r == spec_guess_lzma(buf@),
{
    if buf.len() <= 13 {
        return false;
    }
    if buf[0] != 0x5d {
        return false;
    }
    let dict_sz = read_le32(buf, 1);
    if dict_sz == 0 || (dict_sz & (dict_sz - 1)) != 0 {
        return false;
    }
    let mut i: usize = 5;
    while i < 13
        invariant
            5 <= i <= 13,
            buf@.len() > 13,
            forall|j: int| 5 <= j < i ==> buf@[j] == 0xff,
        decreases 13 - i,
    {
        if buf[i] != 0xff {
            return false;
        }
        i += 1;
    }
    true
}

} // verus!
