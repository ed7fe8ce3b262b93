//! In-place patches of flattened device trees: dropping verity from fstab
//! entries and clearing the initramfs location.
use vstd::prelude::*;
use crate::bytes::{
    bytes_match_at, read_be32, spec_be32, spec_be32_bytes, spec_splice, spec_starts_with_at,
    be32_bytes, splice_into, zeros,
};
use crate::constants::{dtb_magic, spec_dtb_magic};
use crate::utils::spec_align_to;
use crate::text::{contains, contains_byte, is_valid_utf8, spec_contains};

verus! {

/// Structure block tokens.
pub const FDT_BEGIN_NODE: u32 = 0x00000001;
pub const FDT_END_NODE: u32 = 0x00000002;
pub const FDT_PROP: u32 = 0x00000003;

/// Why a device tree could not be patched.
#[derive(Debug, Clone, Copy, PartialEq, Eq, Structural)]
pub enum DtbError {
    /// The data is too small for a header.
    TooSmall,
    /// A node, property or string offset points past the end of the data.
    OutOfBounds,
}

/// The header of a flattened device tree.
pub struct FdtHeader {
    pub magic: u32,
    pub totalsize: u32,
    pub off_dt_struct: u32,
    pub off_dt_strings: u32,
    pub off_mem_rsvmap: u32,
    pub version: u32,
    pub last_comp_version: u32,
    pub boot_cpuid_phys: u32,
    pub size_dt_strings: u32,
    pub size_dt_struct: u32,
}

fn be32(buf: &[u8], off: usize) -> (r: u32)
    requires
        off + 4 <= buf@.len(),
    ensures
        r == spec_be32(buf@, off as int),
{
    read_be32(buf, off)
}

/// Reads the header at the start of `data`, and the size it takes.
pub fn parse_fdt_header(data: &[u8]) -> (r: Result<(FdtHeader, usize), DtbError>)
    ensures
        data@.len() < 40 ==> r == Err::<(FdtHeader, usize), DtbError>(DtbError::TooSmall),
        data@.len() >= 40 ==> (r matches Ok((h, n)) && n == 40 && h.magic == spec_be32(data@, 0)
            && h.totalsize == spec_be32(data@, 4) && h.off_dt_struct == spec_be32(data@, 8)
            && h.off_dt_strings == spec_be32(data@, 12) && h.off_mem_rsvmap == spec_be32(data@, 16)
            && h.version == spec_be32(data@, 20) && h.last_comp_version == spec_be32(data@, 24)
            && h.boot_cpuid_phys == spec_be32(data@, 28) && h.size_dt_strings == spec_be32(data@, 32)
            && h.size_dt_struct == spec_be32(data@, 36)),
{
    if data.len() < 40 {
        return Err(DtbError::TooSmall);
    }
    Ok((
        FdtHeader {
            magic: be32(data, 0),
            totalsize: be32(data, 4),
            off_dt_struct: be32(data, 8),
            off_dt_strings: be32(data, 12),
            off_mem_rsvmap: be32(data, 16),
            version: be32(data, 20),
            last_comp_version: be32(data, 24),
            boot_cpuid_phys: be32(data, 28),
            size_dt_strings: be32(data, 32),
            size_dt_struct: be32(data, 36),
        },
        40,
    ))
}

fn copy_be32(data: &mut Vec<u8>, off: usize, val: u32)
    requires
        off + 4 <= old(data)@.len(),
    ensures
        final(data)@ == spec_splice(old(data)@, off as int, spec_be32_bytes(val)),
{
    let b = be32_bytes(val);
    splice_into(data, off, b.as_slice());
}

fn align(v: usize, a: usize) -> (r: usize)
    requires
        a > 0,
        v + a <= usize::MAX,
    ensures
        r == spec_align_to(v as int, a as int),
        v <= r,
{
    crate::utils::align_to(v, a)
}

/// The offset, counted from `start`, of the first zero byte at or after `start`.
pub open spec fn spec_zero_pos(d: Seq<u8>, start: int) -> Option<int>
    decreases d.len() - start,
{
    if start < 0 || start >= d.len() {
        None
    } else if d[start] == 0 {
        Some(0)
    } else {
        match spec_zero_pos(d, start + 1) {
            Some(k) => Some(k + 1),
            None => None,
        }
    }
}

/// The bytes from `start` up to the first zero byte, or to the end.
pub open spec fn spec_cstr_at(d: Seq<u8>, start: int) -> Seq<u8> {
    match spec_zero_pos(d, start) {
        Some(k) => d.subrange(start, start + k),
        None => d.subrange(start, d.len() as int),
    }
}

/// The first zero byte lies at the offset the search returns.
pub proof fn lemma_zero_pos(d: Seq<u8>, start: int)
    requires
        0 <= start <= d.len(),
    ensures
        spec_zero_pos(d, start) matches Some(k) ==> 0 <= k && start + k < d.len() && d[start + k] == 0
            && forall|j: int| start <= j < start + k ==> d[j] != 0,
        spec_zero_pos(d, start) is None ==> forall|j: int| start <= j < d.len() ==> d[j] != 0,
    decreases d.len() - start,
{
    if start < d.len() && d[start] != 0 {
        lemma_zero_pos(d, start + 1);
    }
}

fn zero_pos(d: &[u8], start: usize) -> (r: Option<usize>)
    requires
        start <= d@.len(),
    ensures
        match spec_zero_pos(d@, start as int) {
            Some(k) => r == Some(k as usize),
            None => r is None,
        },
        r matches Some(k) ==> start + k < d@.len(),
{
    proof {
        lemma_zero_pos(d@, start as int);
    }
    let n = d.len();
    let mut i = start;
    while i < n
        invariant
            n == d@.len(),
            start <= i <= n,
            forall|j: int| start <= j < i ==> d@[j] != 0,
        decreases n - i,
    {
        if d[i] == 0 {
            proof {
                lemma_zero_pos(d@, i as int);
                lemma_zero_pos_shift(d@, start as int, i as int);
            }
            return Some(i - start);
        }
        i += 1;
    }
    proof {
        lemma_zero_pos_none(d@, start as int);
    }
    None
}

proof fn lemma_zero_pos_shift(d: Seq<u8>, start: int, i: int)
    requires
        0 <= start <= i < d.len(),
        d[i] == 0,
        forall|j: int| start <= j < i ==> d[j] != 0,
    ensures
        spec_zero_pos(d, start) == Some(i - start),
    decreases i - start,
{
    if start < i {
        lemma_zero_pos_shift(d, start + 1, i);
    }
}

proof fn lemma_zero_pos_none(d: Seq<u8>, start: int)
    requires
        0 <= start <= d.len(),
        forall|j: int| start <= j < d.len() ==> d[j] != 0,
    ensures
        spec_zero_pos(d, start) is None,
    decreases d.len() - start,
{
    if start < d.len() {
        lemma_zero_pos_none(d, start + 1);
    }
}

/// The bytes from `start` up to the first zero byte, or to the end.
fn cstr_at(d: &[u8], start: usize) -> (r: &[u8])
    requires
        start <= d@.len(),
    ensures
        r@ == spec_cstr_at(d@, start as int),
{
    let n = d.len();
    proof {
        lemma_zero_pos(d@, start as int);
    }
    match zero_pos(d, start) {
        Some(k) => &d[start..start + k],
        None => &d[start..d.len()],
    }
}


/// The name of an initrd location property.
pub open spec fn spec_is_initrd_prop(name: Seq<u8>) -> bool {
    name == "linux,initrd-start"@.map_values(|c: char| c as u8) || name == "linux,initrd-end"@.map_values(|c: char| c as u8)
}

/// `n` zero bytes.
pub open spec fn spec_zeros(n: int) -> Seq<u8> {
    Seq::new(n as nat, |i: int| 0u8)
}

/// The name length that a node header at `start` takes, as the walk counts it.
pub open spec fn spec_node_name_end(d: Seq<u8>, start: int) -> int {
    match spec_zero_pos(d, start) {
        Some(k) => k,
        None => 0,
    }
}

/// The walk over the structure block at `ds` (strings at `dstr`) from
/// structure offset `so` on, clearing the initrd location properties; `None`
/// where an offset points past the end of the data.
pub open spec fn spec_walk_initrd(d: Seq<u8>, ds: int, dstr: int, limit: int, so: int, m: bool) -> Option<(Seq<u8>, bool)>
    decreases usize::MAX - so,
{
    if so < 0 || ds < 0 || dstr < 0 || so + 12 > usize::MAX {
        None
    } else if so + 12 > limit {
        Some((d, m))
    } else if ds + so + 4 > usize::MAX || ds + so + 4 > d.len() {
        None
    } else {
        let tag = spec_be32(d, ds + so);
        let so1 = so + 4;
        if tag == FDT_BEGIN_NODE {
            let ne = spec_node_name_end(d, ds + so1);
            if ds + so1 > d.len() || ne + 5 > usize::MAX || so1 + spec_align_to(ne + 1, 4) > usize::MAX {
                None
            } else {
                proof {
                    lemma_zero_pos(d, ds + so1);
                    crate::utils::lemma_align_to(ne + 1, 4);
                }
                spec_walk_initrd(d, ds, dstr, limit, so1 + spec_align_to(ne + 1, 4), m)
            }
        } else if tag == FDT_END_NODE {
            spec_walk_initrd(d, ds, dstr, limit, so1, m)
        } else if tag == FDT_PROP {
            if ds + so1 + 8 > usize::MAX || ds + so1 + 8 > d.len() {
                None
            } else {
                let len = spec_be32(d, ds + so1) as int;
                let nameoff = spec_be32(d, ds + so1 + 4) as int;
                let so2 = so1 + 8;
                let poff = ds + so2;
                if dstr + nameoff > usize::MAX || dstr + nameoff > d.len() {
                    None
                } else {
                    let name = spec_cstr_at(d, dstr + nameoff);
                    let step: Option<(Seq<u8>, bool)> = if spec_is_initrd_prop(name) {
                        if len == 4 {
                            if poff + 4 > d.len() {
                                None
                            } else {
                                Some((spec_splice(d, poff, spec_be32_bytes(0)), true))
                            }
                        } else if len == 8 {
                            if poff + 8 > d.len() {
                                None
                            } else {
                                Some((spec_splice(d, poff, spec_zeros(8)), true))
                            }
                        } else {
                            Some((d, m))
                        }
                    } else {
                        Some((d, m))
                    };
                    match step {
                        None => None,
                        Some((d2, m2)) => if len + 4 > usize::MAX || so2 + spec_align_to(len, 4) > usize::MAX {
                            None
                        } else {
                            proof {
                                crate::utils::lemma_align_to(len, 4);
                            }
                            spec_walk_initrd(d2, ds, dstr, limit, so2 + spec_align_to(len, 4), m2)
                        },
                    }
                }
            }
        } else {
            Some((d, m))
        }
    }
}

/// The walk keeps the length of the data.
pub proof fn lemma_walk_initrd_len(d: Seq<u8>, ds: int, dstr: int, limit: int, so: int, m: bool)
    ensures
        spec_walk_initrd(d, ds, dstr, limit, so, m) matches Some((d2, _)) ==> d2.len() == d.len(),
    decreases usize::MAX - so,
{
    if so >= 0 && ds >= 0 && dstr >= 0 && so + 12 <= usize::MAX && so + 12 <= limit && ds + so + 4 <= usize::MAX && ds + so + 4 <= d.len() {
        let tag = spec_be32(d, ds + so);
        let so1 = so + 4;
        if tag == FDT_BEGIN_NODE {
            let ne = spec_node_name_end(d, ds + so1);
            if ds + so1 <= d.len() && ne + 5 <= usize::MAX && so1 + spec_align_to(ne + 1, 4) <= usize::MAX {
                lemma_zero_pos(d, ds + so1);
                crate::utils::lemma_align_to(ne + 1, 4);
                lemma_walk_initrd_len(d, ds, dstr, limit, so1 + spec_align_to(ne + 1, 4), m);
            }
        } else if tag == FDT_END_NODE {
            lemma_walk_initrd_len(d, ds, dstr, limit, so1, m);
        } else if tag == FDT_PROP && ds + so1 + 8 <= d.len() {
            let len = spec_be32(d, ds + so1) as int;
            let so2 = so1 + 8;
            let poff = ds + so2;
            let d4 = spec_splice(d, poff, spec_be32_bytes(0));
            let d8 = spec_splice(d, poff, spec_zeros(8));
            if len + 4 <= usize::MAX && so2 + spec_align_to(len, 4) <= usize::MAX {
                crate::utils::lemma_align_to(len, 4);
                lemma_walk_initrd_len(d, ds, dstr, limit, so2 + spec_align_to(len, 4), m);
                lemma_walk_initrd_len(d, ds, dstr, limit, so2 + spec_align_to(len, 4), true);
                lemma_walk_initrd_len(d4, ds, dstr, limit, so2 + spec_align_to(len, 4), true);
                lemma_walk_initrd_len(d8, ds, dstr, limit, so2 + spec_align_to(len, 4), true);
            }
        }
    }
}

/// The walk changes no byte before the structure offset it starts at, and
/// once it has cleared a property it says so.
pub proof fn lemma_walk_initrd_keeps_prefix(d: Seq<u8>, ds: int, dstr: int, limit: int, so: int, m: bool)
    ensures
        spec_walk_initrd(d, ds, dstr, limit, so, m) matches Some((d2, m2)) ==> {
            &&& d2.len() == d.len()
            &&& m ==> m2
            &&& forall|i: int| 0 <= i < ds + so && i < d.len() ==> #[trigger] d2[i] == d[i]
        },
    decreases usize::MAX - so,
{
    lemma_walk_initrd_len(d, ds, dstr, limit, so, m);
    if so >= 0 && ds >= 0 && dstr >= 0 && so + 12 <= usize::MAX && so + 12 <= limit && ds + so + 4 <= usize::MAX
        && ds + so + 4 <= d.len() {
        let tag = spec_be32(d, ds + so);
        let so1 = so + 4;
        if tag == FDT_BEGIN_NODE {
            let ne = spec_node_name_end(d, ds + so1);
            if ds + so1 <= d.len() && ne + 5 <= usize::MAX && so1 + spec_align_to(ne + 1, 4) <= usize::MAX {
                lemma_zero_pos(d, ds + so1);
                crate::utils::lemma_align_to(ne + 1, 4);
                lemma_walk_initrd_keeps_prefix(d, ds, dstr, limit, so1 + spec_align_to(ne + 1, 4), m);
            }
        } else if tag == FDT_END_NODE {
            lemma_walk_initrd_keeps_prefix(d, ds, dstr, limit, so1, m);
        } else if tag == FDT_PROP && ds + so1 + 8 <= d.len() {
            let len = spec_be32(d, ds + so1) as int;
            let so2 = so1 + 8;
            let poff = ds + so2;
            let d4 = spec_splice(d, poff, spec_be32_bytes(0));
            let d8 = spec_splice(d, poff, spec_zeros(8));
            if len + 4 <= usize::MAX && so2 + spec_align_to(len, 4) <= usize::MAX {
                crate::utils::lemma_align_to(len, 4);
                let nx = so2 + spec_align_to(len, 4);
                lemma_walk_initrd_keeps_prefix(d, ds, dstr, limit, nx, m);
                lemma_walk_initrd_keeps_prefix(d4, ds, dstr, limit, nx, true);
                lemma_walk_initrd_keeps_prefix(d8, ds, dstr, limit, nx, true);
                if poff + 4 <= d.len() {
                    assert forall|i: int| 0 <= i < poff implies #[trigger] d4[i] == d[i] by {}
                }
                if poff + 8 <= d.len() {
                    assert forall|i: int| 0 <= i < poff implies #[trigger] d8[i] == d[i] by {}
                }
            }
        }
    }
}

/// A walk that meets a property named `linux,initrd-start` or
/// `linux,initrd-end` with a 4- or 8-byte value clears that value to zeros
/// and reports that it cleared something.
pub proof fn law_walk_clears_initrd(d: Seq<u8>, ds: int, dstr: int, limit: int, so: int, m: bool)
    requires
        0 <= so,
        0 <= ds,
        0 <= dstr,
        so + 12 <= limit,
        so + 12 <= usize::MAX,
        ds + so + 12 <= d.len(),
        d.len() <= usize::MAX,
        spec_be32(d, ds + so) == FDT_PROP,
        spec_be32(d, ds + so + 4) == 4 || spec_be32(d, ds + so + 4) == 8,
        spec_cstr_at(d, dstr + spec_be32(d, ds + so + 8)) == "linux,initrd-start"@.map_values(|c: char| c as u8)
            || spec_cstr_at(d, dstr + spec_be32(d, ds + so + 8)) == "linux,initrd-end"@.map_values(
            |c: char| c as u8,
        ),
    ensures
        spec_walk_initrd(d, ds, dstr, limit, so, m) matches Some((d2, m2)) ==> {
            let poff = ds + so + 12;
            let len = spec_be32(d, ds + so + 4) as int;
            &&& m2
            &&& d2.subrange(poff, poff + len) == spec_zeros(len)
        },
{
    let so1 = so + 4;
    let len = spec_be32(d, ds + so1) as int;
    let so2 = so1 + 8;
    let poff = ds + so2;
    let z4 = spec_be32_bytes(0);
    assert(((0u32 >> 24u32) & 0xff) as u8 == 0 && ((0u32 >> 16u32) & 0xff) as u8 == 0 && ((0u32 >> 8u32) & 0xff)
        as u8 == 0 && (0u32 & 0xff) as u8 == 0) by (bit_vector);
    assert(z4 =~= spec_zeros(4));
    if let Some((d2, m2)) = spec_walk_initrd(d, ds, dstr, limit, so, m) {
        if len + 4 <= usize::MAX && so2 + spec_align_to(len, 4) <= usize::MAX && poff + len <= d.len() {
            crate::utils::lemma_align_to(len, 4);
            let nx = so2 + spec_align_to(len, 4);
            let d1 = spec_splice(d, poff, spec_zeros(len));
            assert(len == 4 ==> spec_splice(d, poff, z4) == d1);
            lemma_walk_initrd_keeps_prefix(d1, ds, dstr, limit, nx, true);
            assert(d1.subrange(poff, poff + len) =~= spec_zeros(len));
            assert(d2.subrange(poff, poff + len) =~= d1.subrange(poff, poff + len));
        }
    }
}

/// The scan for device trees from `pos` on, clearing the initrd location in each.
pub open spec fn spec_patch_initrd(d: Seq<u8>, pos: int, m: bool) -> Option<(Seq<u8>, bool)>
    decreases usize::MAX - pos,
{
    if pos < 0 || pos + 40 > usize::MAX {
        None
    } else if pos + 40 > d.len() {
        Some((d, m))
    } else if !spec_starts_with_at(d, pos, spec_dtb_magic()) {
        spec_patch_initrd(d, pos + 4, m)
    } else {
        let ts = spec_be32(d, pos + 4) as int;
        if ts > d.len() - pos || ts <= 0x48 {
            spec_patch_initrd(d, pos + 4, m)
        } else {
            let ods = spec_be32(d, pos + 8) as int;
            let ostr = spec_be32(d, pos + 12) as int;
            if pos + ods > usize::MAX || pos + ostr > usize::MAX {
                None
            } else {
                match spec_walk_initrd(d, pos + ods, pos + ostr, ods, 0, m) {
                    None => None,
                    Some((d2, m2)) => {
                        proof {
                            lemma_walk_initrd_len(d, pos + ods, pos + ostr, ods, 0, m);
                            crate::utils::lemma_align_to(ts, 4);
                        }
                        if ts + 4 > usize::MAX || pos + spec_align_to(ts, 4) > usize::MAX {
                            None
                        } else {
                            spec_patch_initrd(d2, pos + spec_align_to(ts, 4), m2)
                        }
                    },
                }
            }
        }
    }
}

fn initrd_prop_name(name: &[u8]) -> (r: bool)
    ensures
        r == spec_is_initrd_prop(name@),
{
    let a: &[u8] = b_initrd_start();
    let b: &[u8] = b_initrd_end();
    proof {
        reveal_strlit("linux,initrd-start");
        reveal_strlit("linux,initrd-end");
    }
    let ra = name.len() == a.len() && bytes_match_at(name, 0, a);
    let rb = name.len() == b.len() && bytes_match_at(name, 0, b);
    proof {
        if ra {
            assert(name@ =~= name@.subrange(0, a@.len() as int));
        }
        if rb {
            assert(name@ =~= name@.subrange(0, b@.len() as int));
        }
    }
    proof {
        if name@ == a@ {
            assert(name@.subrange(0, a@.len() as int) =~= a@);
        }
        if name@ == b@ {
            assert(name@.subrange(0, b@.len() as int) =~= b@);
        }
    }
    ra || rb
}

fn b_initrd_start() -> (r: &'static [u8])
    ensures
        r@ == "linux,initrd-start"@.map_values(|c: char| c as u8),
{
    let a: &'static [u8; 18] = &[0x6c, 0x69, 0x6e, 0x75, 0x78, 0x2c, 0x69, 0x6e, 0x69, 0x74, 0x72, 0x64, 0x2d, 0x73, 0x74, 0x61, 0x72, 0x74];
    let r: &'static [u8] = a.as_slice();
    proof {
        reveal_strlit("linux,initrd-start");
        assert(r@ =~= "linux,initrd-start"@.map_values(|c: char| c as u8));
    }
    r
}

fn b_initrd_end() -> (r: &'static [u8])
    ensures
        r@ == "linux,initrd-end"@.map_values(|c: char| c as u8),
{
    let a: &'static [u8; 16] = &[0x6c, 0x69, 0x6e, 0x75, 0x78, 0x2c, 0x69, 0x6e, 0x69, 0x74, 0x72, 0x64, 0x2d, 0x65, 0x6e, 0x64];
    let r: &'static [u8] = a.as_slice();
    proof {
        reveal_strlit("linux,initrd-end");
        assert(r@ =~= "linux,initrd-end"@.map_values(|c: char| c as u8));
    }
    r
}


fn walk_initrd(data: &mut Vec<u8>, ds: usize, dstr: usize, limit: usize, m0: bool) -> (r: Option<bool>)
    ensures
        match spec_walk_initrd(old(data)@, ds as int, dstr as int, limit as int, 0, m0) {
            Some((d2, m2)) => r == Some(m2) && final(data)@ == d2,
            None => r is None,
        },
{
    let mut so: usize = 0;
    let mut modified = m0;
    loop
        invariant
            spec_walk_initrd(old(data)@, ds as int, dstr as int, limit as int, 0, m0)
                == spec_walk_initrd(data@, ds as int, dstr as int, limit as int, so as int, modified),
        decreases usize::MAX - so,
    {
        let n = data.len();
        if so > usize::MAX - 12 {
            return None;
        }
        if so + 12 > limit {
            return Some(modified);
        }
        if ds > usize::MAX - so || ds + so > usize::MAX - 4 || ds + so + 4 > n {
            return None;
        }
        let tag = be32(data.as_slice(), ds + so);
        let so1 = so + 4;
        if tag == FDT_BEGIN_NODE {
            if ds + so1 > n {
                return None;
            }
            proof {
                lemma_zero_pos(data@, (ds + so1) as int);
            }
            let ne = match zero_pos(data.as_slice(), ds + so1) {
                Some(k) => k,
                None => 0,
            };
            if ne > usize::MAX - 5 {
                return None;
            }
            let a = align(ne + 1, 4);
            if so1 > usize::MAX - a {
                return None;
            }
            so = so1 + a;
        } else if tag == FDT_END_NODE {
            so = so1;
        } else if tag == FDT_PROP {
            if ds + so1 > usize::MAX - 8 || ds + so1 + 8 > n {
                return None;
            }
            let len = be32(data.as_slice(), ds + so1) as usize;
            let nameoff = be32(data.as_slice(), ds + so1 + 4) as usize;
            let so2 = so1 + 8;
            let poff = ds + so2;
            if dstr > usize::MAX - nameoff || dstr + nameoff > n {
                return None;
            }
            let is_initrd = initrd_prop_name(cstr_at(data.as_slice(), dstr + nameoff));
            if is_initrd {
                if len == 4 {
                    if n - poff < 4 {
                        return None;
                    }
                    copy_be32(data, poff, 0);
                    modified = true;
                } else if len == 8 {
                    if n - poff < 8 {
                        return None;
                    }
                    let z = zeros(8);
                    splice_into(data, poff, z.as_slice());
                    modified = true;
                }
            }
            if len > usize::MAX - 4 {
                return None;
            }
            let a = align(len, 4);
            if so2 > usize::MAX - a {
                return None;
            }
            so = so2 + a;
        } else {
            return Some(modified);
        }
    }
}

/// Clears the `linux,initrd-start` and `linux,initrd-end` properties of every
/// device tree in `data`, and tells whether any was cleared. Where an offset
/// in a device tree points past the end of the data the result is
/// `DtbError::OutOfBounds`, and `data` may hold the patches made before.
pub fn dtb_patch_initramfs(data: &mut Vec<u8>) -> (r: Result<bool, DtbError>)
    ensures
        match spec_patch_initrd(old(data)@, 0, false) {
            Some((d2, m)) => r == Ok::<bool, DtbError>(m) && final(data)@ == d2,
            None => r == Err::<bool, DtbError>(DtbError::OutOfBounds),
        },
{
    let mut modified = false;
    let mut pos: usize = 0;
    let dm = dtb_magic();
    loop
        invariant
            dm@ == spec_dtb_magic(),
            spec_patch_initrd(old(data)@, 0, false) == spec_patch_initrd(data@, pos as int, modified),
        decreases usize::MAX - pos,
    {
        let n = data.len();
        if pos > usize::MAX - 40 {
            return Err(DtbError::OutOfBounds);
        }
        if pos + 40 > n {
            return Ok(modified);
        }
        if !bytes_match_at(data.as_slice(), pos, dm) {
            pos += 4;
            continue;
        }
        let ts = be32(data.as_slice(), pos + 4) as usize;
        if ts > n - pos || ts <= 0x48 {
            pos += 4;
            continue;
        }
        let ods = be32(data.as_slice(), pos + 8) as usize;
        let ostr = be32(data.as_slice(), pos + 12) as usize;
        if pos > usize::MAX - ods || pos > usize::MAX - ostr {
            return Err(DtbError::OutOfBounds);
        }
        match walk_initrd(data, pos + ods, pos + ostr, ods, modified) {
            None => return Err(DtbError::OutOfBounds),
            Some(m2) => {
                modified = m2;
            },
        }
        if ts > usize::MAX - 4 {
            return Err(DtbError::OutOfBounds);
        }
        let a = align(ts, 4);
        if pos > usize::MAX - a {
            return Err(DtbError::OutOfBounds);
        }
        pos = pos + a;
    }
}


/// The position of the first comma at or after `from`, or the length.
pub open spec fn spec_first_comma(pd: Seq<u8>, from: int) -> int
    decreases pd.len() - from,
{
    if from < 0 || from >= pd.len() {
        pd.len() as int
    } else if pd[from] == 0x2c {
        from
    } else {
        spec_first_comma(pd, from + 1)
    }
}

/// The first comma at or after `from` lies between `from` and the length.
pub proof fn lemma_first_comma(pd: Seq<u8>, from: int)
    requires
        0 <= from <= pd.len(),
    ensures
        from <= spec_first_comma(pd, from) <= pd.len(),
        forall|j: int| from <= j < spec_first_comma(pd, from) ==> pd[j] != 0x2c,
        spec_first_comma(pd, from) < pd.len() ==> pd[spec_first_comma(pd, from)] == 0x2c,
    decreases pd.len() - from,
{
    if from < pd.len() && pd[from] != 0x2c {
        lemma_first_comma(pd, from + 1);
    }
}

/// The fstab option `part` added to the options kept so far, unless it
/// mentions verify or avb, in which case it is dropped and marked removed; an
/// option that is not UTF-8 is kept as an empty one.
pub open spec fn spec_fstab_part(part: Seq<u8>, acc: Seq<u8>, removed: bool) -> (Seq<u8>, bool) {
    let s = if vstd::utf8::valid_utf8(part) { part } else { Seq::empty() };
    if spec_contains(s, "verify"@.map_values(|c: char| c as u8)) || spec_contains(s, "avb"@.map_values(|c: char| c as u8)) {
        (acc, true)
    } else {
        ((if acc.len() > 0 { acc.push(0x2cu8) } else { acc }) + s, removed)
    }
}

/// The options of `pd` from `start` on, filtered one by one onto `acc`.
pub open spec fn spec_fstab_from(pd: Seq<u8>, start: int, acc: Seq<u8>, removed: bool) -> (Seq<u8>, bool)
    decreases pd.len() - start,
{
    if start < 0 || start > pd.len() {
        (acc, removed)
    } else {
        let i = spec_first_comma(pd, start);
        proof {
            lemma_first_comma(pd, start);
        }
        let r = spec_fstab_part(pd.subrange(start, i), acc, removed);
        if i >= pd.len() {
            r
        } else {
            spec_fstab_from(pd, i + 1, r.0, r.1)
        }
    }
}

/// A word without commas found in `a`, a comma, then `b` is found in `a` or
/// in `b`.
proof fn lemma_contains_comma_join(a: Seq<u8>, b: Seq<u8>, w: Seq<u8>)
    requires
        forall|j: int| 0 <= j < w.len() ==> w[j] != 0x2c,
        w.len() > 0,
    ensures
        spec_contains(a.push(0x2cu8) + b, w) ==> spec_contains(a, w) || spec_contains(b, w),
{
    let c = a.push(0x2cu8) + b;
    if spec_contains(c, w) {
        let i = choose|i: int| 0 <= i && #[trigger] spec_starts_with_at(c, i, w);
        let sub = c.subrange(i, i + w.len());
        if i + w.len() <= a.len() {
            assert(a.subrange(i, i + w.len()) =~= sub);
            assert(spec_starts_with_at(a, i, w));
        } else if i > a.len() {
            let k = i - a.len() - 1;
            assert(b.subrange(k, k + w.len()) =~= sub);
            assert(spec_starts_with_at(b, k, w));
        } else {
            assert(sub[a.len() - i] == c[a.len() as int]);
            assert(w[a.len() - i] == 0x2c);
        }
    }
}

/// The fstab options that the verity patch keeps mention neither `verify`
/// nor `avb`: filtering options onto a list without them gives a list
/// without them.
pub proof fn law_fstab_drops_verify(pd: Seq<u8>, start: int, acc: Seq<u8>, removed: bool)
    requires
        !spec_contains(acc, "verify"@.map_values(|c: char| c as u8)),
        !spec_contains(acc, "avb"@.map_values(|c: char| c as u8)),
    ensures
        !spec_contains(spec_fstab_from(pd, start, acc, removed).0, "verify"@.map_values(|c: char| c as u8)),
        !spec_contains(spec_fstab_from(pd, start, acc, removed).0, "avb"@.map_values(|c: char| c as u8)),
    decreases pd.len() - start,
{
    reveal_strlit("verify");
    reveal_strlit("avb");
    let wv = "verify"@.map_values(|c: char| c as u8);
    let wa = "avb"@.map_values(|c: char| c as u8);
    assert(forall|j: int| 0 <= j < wv.len() ==> wv[j] != 0x2c);
    assert(forall|j: int| 0 <= j < wa.len() ==> wa[j] != 0x2c);
    if 0 <= start <= pd.len() {
        let i = spec_first_comma(pd, start);
        lemma_first_comma(pd, start);
        let part = pd.subrange(start, i);
        let r = spec_fstab_part(part, acc, removed);
        let sp = if vstd::utf8::valid_utf8(part) { part } else { Seq::empty() };
        if !(spec_contains(sp, wv) || spec_contains(sp, wa)) && acc.len() > 0 {
            lemma_contains_comma_join(acc, sp, wv);
            lemma_contains_comma_join(acc, sp, wa);
        }
        if !(spec_contains(sp, wv) || spec_contains(sp, wa)) && acc.len() == 0 {
            assert(Seq::<u8>::empty() + sp =~= sp);
        }
        if i < pd.len() {
            law_fstab_drops_verify(pd, i + 1, r.0, r.1);
        }
    }
}

/// Whether a property is the fstab property.
pub open spec fn spec_is_fstab(name: Seq<u8>) -> bool {
    name == "fstab"@.map_values(|c: char| c as u8)
}

/// The walk over the structure block at `ds` (strings at `dstr`) from
/// structure offset `so` on, dropping the verity options from fstab
/// properties; `None` where an offset points past the end of the data.
pub open spec fn spec_walk_verity(d: Seq<u8>, ds: int, dstr: int, limit: int, so: int, m: bool) -> Option<(Seq<u8>, bool)>
    decreases usize::MAX - so,
{
    if so < 0 || ds < 0 || dstr < 0 || so + 12 > usize::MAX {
        None
    } else if so + 12 > limit {
        Some((d, m))
    } else if ds + so + 4 > usize::MAX || ds + so + 4 > d.len() {
        None
    } else {
        let tag = spec_be32(d, ds + so);
        let so1 = so + 4;
        if tag == FDT_BEGIN_NODE {
            let ne = spec_node_name_end(d, ds + so1);
            if ds + so1 > d.len() || ne + 5 > usize::MAX || so1 + spec_align_to(ne + 1, 4) > usize::MAX {
                None
            } else {
                proof {
                    lemma_zero_pos(d, ds + so1);
                    crate::utils::lemma_align_to(ne + 1, 4);
                }
                spec_walk_verity(d, ds, dstr, limit, so1 + spec_align_to(ne + 1, 4), m)
            }
        } else if tag == FDT_END_NODE {
            spec_walk_verity(d, ds, dstr, limit, so1, m)
        } else if tag == FDT_PROP {
            if ds + so1 + 8 > usize::MAX || ds + so1 + 8 > d.len() {
                None
            } else {
                let len = spec_be32(d, ds + so1) as int;
                let nameoff = spec_be32(d, ds + so1 + 4) as int;
                let so2 = so1 + 8;
                let poff = ds + so2;
                if dstr + nameoff > usize::MAX || dstr + nameoff > d.len() {
                    None
                } else if poff + len > usize::MAX || poff + len > d.len() {
                    None
                } else {
                    let name = spec_cstr_at(d, dstr + nameoff);
                    let pd = d.subrange(poff, poff + len);
                    let (d2, m2) = if spec_is_fstab(name) && pd.contains(0x2cu8) {
                        let (nv, removed) = spec_fstab_from(pd, 0, Seq::empty(), false);
                        let m2 = m || removed;
                        if m2 {
                            let cl = if nv.len() < len { nv.len() as int } else { len };
                            (spec_splice(spec_splice(d, poff, spec_zeros(len)), poff, nv.subrange(0, cl)), m2)
                        } else {
                            (d, m2)
                        }
                    } else {
                        (d, m)
                    };
                    if len + 4 > usize::MAX || so2 + spec_align_to(len, 4) > usize::MAX {
                        None
                    } else {
                        proof {
                            crate::utils::lemma_align_to(len, 4);
                        }
                        spec_walk_verity(d2, ds, dstr, limit, so2 + spec_align_to(len, 4), m2)
                    }
                }
            }
        } else {
            Some((d, m))
        }
    }
}

/// The scan for device trees from `pos` on, dropping verity from each.
pub open spec fn spec_patch_verity(d: Seq<u8>, pos: int, m: bool) -> Option<(Seq<u8>, bool)>
    decreases usize::MAX - pos,
{
    if pos < 0 || pos + 40 > usize::MAX {
        None
    } else if pos + 40 > d.len() {
        Some((d, m))
    } else if !spec_starts_with_at(d, pos, spec_dtb_magic()) {
        spec_patch_verity(d, pos + 4, m)
    } else {
        let ts = spec_be32(d, pos + 4) as int;
        if ts > d.len() - pos || ts <= 0x48 {
            spec_patch_verity(d, pos + 4, m)
        } else {
            let ods = spec_be32(d, pos + 8) as int;
            let ostr = spec_be32(d, pos + 12) as int;
            if pos + ods > usize::MAX || pos + ostr > usize::MAX {
                None
            } else {
                match spec_walk_verity(d, pos + ods, pos + ostr, ods, 0, m) {
                    None => None,
                    Some((d2, m2)) => {
                        proof {
                            crate::utils::lemma_align_to(ts, 4);
                        }
                        if ts + 4 > usize::MAX || pos + spec_align_to(ts, 4) > usize::MAX {
                            None
                        } else {
                            spec_patch_verity(d2, pos + spec_align_to(ts, 4), m2)
                        }
                    },
                }
            }
        }
    }
}


fn b_verify() -> (r: &'static [u8])
    ensures
        r@ == "verify"@.map_values(|c: char| c as u8),
{
    let a: &'static [u8; 6] = &[0x76, 0x65, 0x72, 0x69, 0x66, 0x79];
    let r: &'static [u8] = a.as_slice();
    proof {
        reveal_strlit("verify");
        assert(r@ =~= "verify"@.map_values(|c: char| c as u8));
    }
    r
}

fn b_avb() -> (r: &'static [u8])
    ensures
        r@ == "avb"@.map_values(|c: char| c as u8),
{
    let a: &'static [u8; 3] = &[0x61, 0x76, 0x62];
    let r: &'static [u8] = a.as_slice();
    proof {
        reveal_strlit("avb");
        assert(r@ =~= "avb"@.map_values(|c: char| c as u8));
    }
    r
}

fn b_fstab() -> (r: &'static [u8])
    ensures
        r@ == "fstab"@.map_values(|c: char| c as u8),
{
    let a: &'static [u8; 5] = &[0x66, 0x73, 0x74, 0x61, 0x62];
    let r: &'static [u8] = a.as_slice();
    proof {
        reveal_strlit("fstab");
        assert(r@ =~= "fstab"@.map_values(|c: char| c as u8));
    }
    r
}

fn fstab_part(part: &[u8], acc: &mut Vec<u8>, removed: &mut bool)
    ensures
        (final(acc)@, *final(removed)) == spec_fstab_part(part@, old(acc)@, *old(removed)),
{
    let valid = is_valid_utf8(part);
    let s: &[u8] = if valid { part } else { &part[0..0] };
    assert(s@ == (if vstd::utf8::valid_utf8(part@) { part@ } else { Seq::<u8>::empty() }));
    if contains(s, b_verify()) || contains(s, b_avb()) {
        *removed = true;
    } else {
        if acc.len() > 0 {
            acc.push(0x2cu8);
        }
        crate::bytes::append_slice(acc, s);
    }
}

fn first_comma(pd: &[u8], from: usize) -> (r: usize)
    requires
        from <= pd@.len(),
    ensures
        r == spec_first_comma(pd@, from as int),
        from <= r <= pd@.len(),
{
    proof {
        lemma_first_comma(pd@, from as int);
    }
    let n = pd.len();
    let mut i = from;
    while i < n
        invariant
            n == pd@.len(),
            from <= i <= n,
            spec_first_comma(pd@, from as int) == spec_first_comma(pd@, i as int),
        decreases n - i,
    {
        if pd[i] == 0x2c {
            return i;
        }
        i += 1;
    }
    i
}

fn fstab_filter(pd: &[u8]) -> (r: (Vec<u8>, bool))
    ensures
        (r.0@, r.1) == spec_fstab_from(pd@, 0, Seq::empty(), false),
{
    let n = pd.len();
    let mut acc: Vec<u8> = Vec::new();
    let mut removed = false;
    let mut start: usize = 0;
    assert(acc@ =~= Seq::<u8>::empty());
    loop
        invariant
            n == pd@.len(),
            start <= n,
            spec_fstab_from(pd@, 0, Seq::empty(), false) == spec_fstab_from(pd@, start as int, acc@, removed),
        decreases n - start,
    {
        let i = first_comma(pd, start);
        let part = &pd[start..i];
        fstab_part(part, &mut acc, &mut removed);
        if i >= n {
            return (acc, removed);
        }
        start = i + 1;
    }
}

fn is_fstab(name: &[u8]) -> (r: bool)
    ensures
        r == spec_is_fstab(name@),
{
    let a = b_fstab();
    proof {
        reveal_strlit("fstab");
    }
    let r = name.len() == a.len() && bytes_match_at(name, 0, a);
    proof {
        if r {
            assert(name@ =~= name@.subrange(0, a@.len() as int));
        }
        if name@ == a@ {
            assert(name@.subrange(0, a@.len() as int) =~= a@);
        }
    }
    r
}

fn walk_verity(data: &mut Vec<u8>, ds: usize, dstr: usize, limit: usize, m0: bool) -> (r: Option<bool>)
    ensures
        match spec_walk_verity(old(data)@, ds as int, dstr as int, limit as int, 0, m0) {
            Some((d2, m2)) => r == Some(m2) && final(data)@ == d2,
            None => r is None,
        },
{
    let mut so: usize = 0;
    let mut modified = m0;
    loop
        invariant
            spec_walk_verity(old(data)@, ds as int, dstr as int, limit as int, 0, m0)
                == spec_walk_verity(data@, ds as int, dstr as int, limit as int, so as int, modified),
        decreases usize::MAX - so,
    {
        let n = data.len();
        if so > usize::MAX - 12 {
            return None;
        }
        if so + 12 > limit {
            return Some(modified);
        }
        if ds > usize::MAX - so || ds + so > usize::MAX - 4 || ds + so + 4 > n {
            return None;
        }
        let tag = be32(data.as_slice(), ds + so);
        let so1 = so + 4;
        if tag == FDT_BEGIN_NODE {
            if ds + so1 > n {
                return None;
            }
            proof {
                lemma_zero_pos(data@, (ds + so1) as int);
            }
            let ne = match zero_pos(data.as_slice(), ds + so1) {
                Some(k) => k,
                None => 0,
            };
            if ne > usize::MAX - 5 {
                return None;
            }
            let a = align(ne + 1, 4);
            if so1 > usize::MAX - a {
                return None;
            }
            so = so1 + a;
        } else if tag == FDT_END_NODE {
            so = so1;
        } else if tag == FDT_PROP {
            if ds + so1 > usize::MAX - 8 || ds + so1 + 8 > n {
                return None;
            }
            let len = be32(data.as_slice(), ds + so1) as usize;
            let nameoff = be32(data.as_slice(), ds + so1 + 4) as usize;
            let so2 = so1 + 8;
            let poff = ds + so2;
            if dstr > usize::MAX - nameoff || dstr + nameoff > n {
                return None;
            }
            if poff > usize::MAX - len || poff + len > n {
                return None;
            }
            let fstab = is_fstab(cstr_at(data.as_slice(), dstr + nameoff));
            let ghost d0 = data@;
            let (has_comma, nv, removed) = {
                let pd = &data.as_slice()[poff..poff + len];
                if fstab && contains_byte(pd, 0x2c) {
                    let (nv, rem) = fstab_filter(pd);
                    (true, nv, rem)
                } else {
                    (false, Vec::new(), false)
                }
            };
            if has_comma {
                modified = modified || removed;
                if modified {
                    let z = zeros(len);
                    splice_into(data, poff, z.as_slice());
                    let cl = if nv.len() < len { nv.len() } else { len };
                    splice_into(data, poff, &nv.as_slice()[0..cl]);
                }
            }
            if len > usize::MAX - 4 {
                return None;
            }
            let a = align(len, 4);
            if so2 > usize::MAX - a {
                return None;
            }
            so = so2 + a;
        } else {
            return Some(modified);
        }
    }
}

/// Drops the options that mention verify or avb from the fstab properties
/// of every device tree in `data`, and tells whether any was dropped. Where
/// an offset in a device tree points past the end of the data the result is
/// `DtbError::OutOfBounds`, and `data` may hold the patches made before.
pub fn dtb_patch_verity(data: &mut Vec<u8>) -> (r: Result<bool, DtbError>)
    ensures
        match spec_patch_verity(old(data)@, 0, false) {
            Some((d2, m)) => r == Ok::<bool, DtbError>(m) && final(data)@ == d2,
            None => r == Err::<bool, DtbError>(DtbError::OutOfBounds),
        },
{
    let mut modified = false;
    let mut pos: usize = 0;
    let dm = dtb_magic();
    loop
        invariant
            dm@ == spec_dtb_magic(),
            spec_patch_verity(old(data)@, 0, false) == spec_patch_verity(data@, pos as int, modified),
        decreases usize::MAX - pos,
    {
        let n = data.len();
        if pos > usize::MAX - 40 {
            return Err(DtbError::OutOfBounds);
        }
        if pos + 40 > n {
            return Ok(modified);
        }
        if !bytes_match_at(data.as_slice(), pos, dm) {
            pos += 4;
            continue;
        }
        let ts = be32(data.as_slice(), pos + 4) as usize;
        if ts > n - pos || ts <= 0x48 {
            pos += 4;
            continue;
        }
        let ods = be32(data.as_slice(), pos + 8) as usize;
        let ostr = be32(data.as_slice(), pos + 12) as usize;
        if pos > usize::MAX - ods || pos > usize::MAX - ostr {
            return Err(DtbError::OutOfBounds);
        }
        match walk_verity(data, pos + ods, pos + ostr, ods, modified) {
            None => return Err(DtbError::OutOfBounds),
            Some(m2) => {
                modified = m2;
            },
        }
        if ts > usize::MAX - 4 {
            return Err(DtbError::OutOfBounds);
        }
        let a = align(ts, 4);
        if pos > usize::MAX - a {
            return Err(DtbError::OutOfBounds);
        }
        pos = pos + a;
    }
}

/// Clearing the initrd properties keeps the length of the data.
pub proof fn law_patch_initrd_keeps_len(d: Seq<u8>, pos: int, m: bool)
    ensures
        spec_patch_initrd(d, pos, m) matches Some((d2, _)) ==> d2.len() == d.len(),
    decreases usize::MAX - pos,
{
    if pos < 0 || pos + 40 > usize::MAX {
    } else if pos + 40 > d.len() {
    } else if !spec_starts_with_at(d, pos, spec_dtb_magic()) {
        law_patch_initrd_keeps_len(d, pos + 4, m);
    } else {
        let ts = spec_be32(d, pos + 4) as int;
        if ts > d.len() - pos || ts <= 0x48 {
            law_patch_initrd_keeps_len(d, pos + 4, m);
        } else {
            let ods = spec_be32(d, pos + 8) as int;
            let ostr = spec_be32(d, pos + 12) as int;
            if pos + ods > usize::MAX || pos + ostr > usize::MAX {
            } else {
                lemma_walk_initrd_len(d, pos + ods, pos + ostr, ods, 0, m);
                crate::utils::lemma_align_to(ts, 4);
                match spec_walk_initrd(d, pos + ods, pos + ostr, ods, 0, m) {
                    None => {},
                    Some((d2, m2)) => {
                        if ts + 4 > usize::MAX || pos + spec_align_to(ts, 4) > usize::MAX {
                        } else {
                            law_patch_initrd_keeps_len(d2, pos + spec_align_to(ts, 4), m2);
                        }
                    },
                }
            }
        }
    }
}

/// Dropping verity options keeps the length of the data.
proof fn lemma_walk_verity_len(d: Seq<u8>, ds: int, dstr: int, limit: int, so: int, m: bool)
    ensures
        spec_walk_verity(d, ds, dstr, limit, so, m) matches Some((d2, _)) ==> d2.len() == d.len(),
    decreases usize::MAX - so,
{
    if so < 0 || ds < 0 || dstr < 0 || so + 12 > usize::MAX {
    } else if so + 12 > limit {
    } else if ds + so + 4 > usize::MAX || ds + so + 4 > d.len() {
    } else {
        let tag = spec_be32(d, ds + so);
        let so1 = so + 4;
        if tag == FDT_BEGIN_NODE {
            let ne = spec_node_name_end(d, ds + so1);
            if ds + so1 > d.len() || ne + 5 > usize::MAX || so1 + spec_align_to(ne + 1, 4) > usize::MAX {
            } else {
                lemma_zero_pos(d, ds + so1);
                crate::utils::lemma_align_to(ne + 1, 4);
                lemma_walk_verity_len(d, ds, dstr, limit, so1 + spec_align_to(ne + 1, 4), m);
            }
        } else if tag == FDT_END_NODE {
            lemma_walk_verity_len(d, ds, dstr, limit, so1, m);
        } else if tag == FDT_PROP {
            if ds + so1 + 8 > usize::MAX || ds + so1 + 8 > d.len() {
            } else {
                let len = spec_be32(d, ds + so1) as int;
                let nameoff = spec_be32(d, ds + so1 + 4) as int;
                let so2 = so1 + 8;
                let poff = ds + so2;
                if dstr + nameoff > usize::MAX || dstr + nameoff > d.len() {
                } else if poff + len > usize::MAX || poff + len > d.len() {
                } else {
                    let name = spec_cstr_at(d, dstr + nameoff);
                    let pd = d.subrange(poff, poff + len);
                    let (d2, m2) = if spec_is_fstab(name) && pd.contains(0x2cu8) {
                        let (nv, removed) = spec_fstab_from(pd, 0, Seq::empty(), false);
                        let m2 = m || removed;
                        if m2 {
                            let cl = if nv.len() < len { nv.len() as int } else { len };
                            (spec_splice(spec_splice(d, poff, spec_zeros(len)), poff, nv.subrange(0, cl)), m2)
                        } else {
                            (d, m2)
                        }
                    } else {
                        (d, m)
                    };
                    assert(d2.len() == d.len());
                    if len + 4 > usize::MAX || so2 + spec_align_to(len, 4) > usize::MAX {
                    } else {
                        crate::utils::lemma_align_to(len, 4);
                        lemma_walk_verity_len(d2, ds, dstr, limit, so2 + spec_align_to(len, 4), m2);
                    }
                }
            }
        } else {
        }
    }
}

/// Dropping verity options keeps the length of the data.
pub proof fn law_patch_verity_keeps_len(d: Seq<u8>, pos: int, m: bool)
    ensures
        spec_patch_verity(d, pos, m) matches Some((d2, _)) ==> d2.len() == d.len(),
    decreases usize::MAX - pos,
{
    if pos < 0 || pos + 40 > usize::MAX {
    } else if pos + 40 > d.len() {
    } else if !spec_starts_with_at(d, pos, spec_dtb_magic()) {
        law_patch_verity_keeps_len(d, pos + 4, m);
    } else {
        let ts = spec_be32(d, pos + 4) as int;
        if ts > d.len() - pos || ts <= 0x48 {
            law_patch_verity_keeps_len(d, pos + 4, m);
        } else {
            let ods = spec_be32(d, pos + 8) as int;
            let ostr = spec_be32(d, pos + 12) as int;
            if pos + ods > usize::MAX || pos + ostr > usize::MAX {
            } else {
                lemma_walk_verity_len(d, pos + ods, pos + ostr, ods, 0, m);
                crate::utils::lemma_align_to(ts, 4);
                match spec_walk_verity(d, pos + ods, pos + ostr, ods, 0, m) {
                    None => {},
                    Some((d2, m2)) => {
                        if ts + 4 > usize::MAX || pos + spec_align_to(ts, 4) > usize::MAX {
                        } else {
                            law_patch_verity_keeps_len(d2, pos + spec_align_to(ts, 4), m2);
                        }
                    },
                }
            }
        }
    }
}

} // verus!
