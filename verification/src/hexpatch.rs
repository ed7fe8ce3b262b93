//! Search and replace of hex byte patterns.
use vstd::prelude::*;
use crate::bytes::{bytes_match_at, spec_splice, spec_starts_with_at, splice_into};
use crate::text::{spec_trim, str_trim};

verus! {

/// Why a hex pattern could not be used.
#[derive(Debug, Clone, Copy, PartialEq, Eq, Structural)]
pub enum HexError {
    /// The pattern has an odd number of bytes.
    OddLength,
    /// A pair of bytes is not a hex number.
    InvalidDigit,
    /// The search pattern is empty.
    EmptyPattern,
}

/// The value of a hex digit.
pub open spec fn spec_hex_digit(b: u8) -> Option<u8> {
    if 0x30 <= b <= 0x39 {
        Some((b - 0x30) as u8)
    } else if 0x61 <= b <= 0x66 {
        Some((b - 0x61 + 10) as u8)
    } else if 0x41 <= b <= 0x46 {
        Some((b - 0x41 + 10) as u8)
    } else {
        None
    }
}

/// The byte that two characters stand for, read as `u8::from_str_radix(.., 16)`
/// reads them: two hex digits, or a plus sign and one hex digit.
pub open spec fn spec_hex_pair(b0: u8, b1: u8) -> Option<u8> {
    if b0 == 0x2b {
        spec_hex_digit(b1)
    } else {
        match (spec_hex_digit(b0), spec_hex_digit(b1)) {
            (Some(h), Some(l)) => Some((h * 16 + l) as u8),
            _ => None,
        }
    }
}

/// The bytes that the hex text `b` stands for.
pub open spec fn spec_hex_bytes(b: Seq<u8>) -> Result<Seq<u8>, HexError> {
    if b.len() % 2 != 0 {
        Err(HexError::OddLength)
    } else if forall|i: int| 0 <= i < b.len() / 2 ==> (#[trigger] spec_hex_pair(b[2 * i], b[2 * i + 1])) is Some {
        Ok(Seq::new((b.len() / 2) as nat, |i: int| spec_hex_pair(b[2 * i], b[2 * i + 1])->Some_0))
    } else {
        Err(HexError::InvalidDigit)
    }
}

/// The bytes that the hex string `hex` stands for, once trimmed.
pub open spec fn spec_hex2byte(hex: Seq<char>) -> Result<Seq<u8>, HexError> {
    spec_hex_bytes(vstd::utf8::encode_utf8(spec_trim(hex)))
}

pub(crate) fn hex_digit(b: u8) -> (r: Option<u8>)
    ensures
        r == spec_hex_digit(b),
{
    if 0x30 <= b && b <= 0x39 {
        Some(b - 0x30)
    } else if 0x61 <= b && b <= 0x66 {
        Some(b - 0x61 + 10)
    } else if 0x41 <= b && b <= 0x46 {
        Some(b - 0x41 + 10)
    } else {
        None
    }
}

fn hex_pair(b0: u8, b1: u8) -> (r: Option<u8>)
    ensures
        r == spec_hex_pair(b0, b1),
{
    if b0 == 0x2b {
        hex_digit(b1)
    } else {
        match (hex_digit(b0), hex_digit(b1)) {
            (Some(h), Some(l)) => Some(h * 16 + l),
            _ => None,
        }
    }
}

fn hex_bytes(b: &[u8]) -> (r: Result<Vec<u8>, HexError>)
    ensures
        match spec_hex_bytes(b@) {
            Ok(v) => r matches Ok(x) && x@ == v,
            Err(e) => r == Err::<Vec<u8>, HexError>(e),
        },
{
    let n = b.len();
    if n % 2 != 0 {
        return Err(HexError::OddLength);
    }
    let mut v: Vec<u8> = Vec::new();
    let mut i: usize = 0;
    while i < n / 2
        invariant
            n == b@.len(),
            n % 2 == 0,
            i <= n / 2,
            v@.len() == i,
            forall|j: int| 0 <= j < i ==> (#[trigger] spec_hex_pair(b@[2 * j], b@[2 * j + 1])) is Some,
            forall|j: int| 0 <= j < i ==> v@[j] == spec_hex_pair(b@[2 * j], b@[2 * j + 1])->Some_0,
        decreases n / 2 - i,
    {
        match hex_pair(b[2 * i], b[2 * i + 1]) {
            Some(x) => v.push(x),
            None => return Err(HexError::InvalidDigit),
        }
        i += 1;
    }
    assert(v@ =~= Seq::new((n / 2) as nat, |j: int| spec_hex_pair(b@[2 * j], b@[2 * j + 1])->Some_0));
    Ok(v)
}

/// Reads a hex string, surrounding whitespace ignored, as bytes.
pub fn hex2byte(hex: &str) -> (r: Result<Vec<u8>, HexError>)
    ensures
        match spec_hex2byte(hex@) {
            Ok(v) => r matches Ok(x) && x@ == v,
            Err(e) => r == Err::<Vec<u8>, HexError>(e),
        },
{
    let t = str_trim(hex);
    let b = t.as_bytes();
    hex_bytes(b)
}

/// The search from `pos` on: where `from` occurs, `to` (cut at the end of the
/// data) is written there and the search goes on after the match; the
/// offsets of the matches come with the patched data.
pub open spec fn spec_hexpatch_from(d: Seq<u8>, from: Seq<u8>, to: Seq<u8>, pos: int) -> (Seq<u8>, Seq<usize>)
    decreases d.len() - pos,
{
    if pos < 0 || from.len() == 0 || pos + from.len() > d.len() {
        (d, Seq::empty())
    } else if d.subrange(pos, pos + from.len()) == from {
        let cl = if to.len() < d.len() - pos { to.len() as int } else { d.len() - pos };
        let d2 = spec_splice(d, pos, to.subrange(0, cl));
        let r = spec_hexpatch_from(d2, from, to, pos + from.len());
        (r.0, seq![pos as usize] + r.1)
    } else {
        spec_hexpatch_from(d, from, to, pos + 1)
    }
}

/// Replaces every occurrence of the hex pattern `from_pattern` in `data` by
/// `to_pattern`, and returns the offsets where it did.
pub fn hexpatch(data: &mut Vec<u8>, from_pattern: &str, to_pattern: &str) -> (r: Result<Vec<usize>, HexError>)
    ensures
        match (spec_hex2byte(from_pattern@), spec_hex2byte(to_pattern@)) {
            (Err(e), _) => r == Err::<Vec<usize>, HexError>(e) && final(data)@ == old(data)@,
            (Ok(_), Err(e)) => r == Err::<Vec<usize>, HexError>(e) && final(data)@ == old(data)@,
            (Ok(f), Ok(t)) => if f.len() == 0 {
                r == Err::<Vec<usize>, HexError>(HexError::EmptyPattern) && final(data)@ == old(data)@
            } else {
                r matches Ok(offs) && (final(data)@, offs@) == spec_hexpatch_from(old(data)@, f, t, 0)
            },
        },
{
    let from = match hex2byte(from_pattern) {
        Ok(v) => v,
        Err(e) => return Err(e),
    };
    let to = match hex2byte(to_pattern) {
        Ok(v) => v,
        Err(e) => return Err(e),
    };
    if from.len() == 0 {
        return Err(HexError::EmptyPattern);
    }
    let flen = from.len();
    let mut offsets: Vec<usize> = Vec::new();
    let mut pos: usize = 0;
    assert(offsets@ =~= Seq::<usize>::empty());
    loop
        invariant
            flen == from@.len(),
            flen > 0,
            spec_hex2byte(from_pattern@) == Ok::<Seq<u8>, HexError>(from@),
            spec_hex2byte(to_pattern@) == Ok::<Seq<u8>, HexError>(to@),
            spec_hexpatch_from(old(data)@, from@, to@, 0).0 == spec_hexpatch_from(data@, from@, to@, pos as int).0,
            spec_hexpatch_from(old(data)@, from@, to@, 0).1 == offsets@ + spec_hexpatch_from(data@, from@, to@, pos as int).1,
        decreases data@.len() - pos,
    {
        let n = data.len();
        if pos > n || flen > n - pos {
            assert(spec_hexpatch_from(data@, from@, to@, pos as int) == (data@, Seq::<usize>::empty()));
            assert(offsets@ + Seq::<usize>::empty() =~= offsets@);
            return Ok(offsets);
        }
        if bytes_match_at(data.as_slice(), pos, from.as_slice()) {
            let ghost d0 = data@;
            offsets.push(pos);
            let cl = if to.len() < n - pos { to.len() } else { n - pos };
            splice_into(data, pos, &to.as_slice()[0..cl]);
            proof {
                let r = spec_hexpatch_from(data@, from@, to@, pos + flen);
                assert(spec_hexpatch_from(d0, from@, to@, pos as int).1 == seq![pos as usize] + r.1);
                assert(offsets@ + r.1 =~= offsets@.drop_last() + (seq![pos as usize] + r.1));
            }
            pos = pos + flen;
        } else {
            pos = pos + 1;
        }
    }
}


/// What a hex patch does to the data: the length stays, the bytes before the
/// search start stay, the reported offsets increase by at least the pattern
/// length and leave room for a match, and, where both patterns have the same
/// length, every reported offset holds the replacement afterwards.
pub proof fn lemma_hexpatch_shape(d: Seq<u8>, from: Seq<u8>, to: Seq<u8>, pos: int)
    requires
        from.len() > 0,
        pos >= 0,
        d.len() <= usize::MAX,
    ensures
        ({
            let (d2, offs) = spec_hexpatch_from(d, from, to, pos);
            &&& d2.len() == d.len()
            &&& forall|k: int| 0 <= k < pos && k < d.len() ==> d2[k] == d[k]
            &&& forall|i: int| 0 <= i < offs.len() ==> pos <= #[trigger] offs[i] && offs[i] + from.len() <= d.len()
            &&& forall|i: int, j: int| 0 <= i < j < offs.len() ==> #[trigger] offs[i] + from.len() <= #[trigger] offs[j]
            &&& to.len() == from.len() ==> forall|i: int| 0 <= i < offs.len() ==> d2.subrange(
                #[trigger] offs[i] as int,
                offs[i] + from.len(),
            ) == to
        }),
    decreases d.len() - pos,
{
    if pos + from.len() > d.len() {
    } else if d.subrange(pos, pos + from.len()) == from {
        let cl = if to.len() < d.len() - pos { to.len() as int } else { d.len() - pos };
        let d2 = spec_splice(d, pos, to.subrange(0, cl));
        lemma_hexpatch_shape(d2, from, to, pos + from.len());
        let r = spec_hexpatch_from(d2, from, to, pos + from.len());
        let offs = seq![pos as usize] + r.1;
        assert forall|i: int| 0 <= i < offs.len() implies pos <= #[trigger] offs[i] && offs[i] + from.len() <= d.len() by {
            if i > 0 {
                assert(offs[i] == r.1[i - 1]);
            }
        }
        assert forall|i: int, j: int| 0 <= i < j < offs.len() implies #[trigger] offs[i] + from.len() <= #[trigger] offs[j] by {
            assert(offs[j] == r.1[j - 1]);
            if i > 0 {
                assert(offs[i] == r.1[i - 1]);
            }
        }
        if to.len() == from.len() {
            assert forall|i: int| 0 <= i < offs.len() implies r.0.subrange(#[trigger] offs[i] as int, offs[i] + from.len()) == to by {
                if i == 0 {
                    assert(r.0.subrange(pos, pos + from.len()) =~= to);
                } else {
                    assert(offs[i] == r.1[i - 1]);
                }
            }
        }
    } else {
        lemma_hexpatch_shape(d, from, to, pos + 1);
    }
}


/// Where a hex patch writes: the bytes before the first reported offset stay
/// as they were, and at each reported offset the data holds the replacement,
/// as much of it as fits before the end of the data, up to the next reported
/// offset (a later match may overwrite the tail of a longer replacement).
pub proof fn law_hexpatch_writes_replacement(d: Seq<u8>, from: Seq<u8>, to: Seq<u8>, pos: int)
    requires
        from.len() > 0,
        pos >= 0,
        d.len() <= usize::MAX,
    ensures
        ({
            let (d2, offs) = spec_hexpatch_from(d, from, to, pos);
            &&& forall|k: int|
                0 <= k < d.len() && (offs.len() == 0 || k < offs[0]) ==> #[trigger] d2[k] == d[k]
            &&& forall|i: int, j: int|
                0 <= i < offs.len() && 0 <= j < to.len() && offs[i] + j < d.len() && (i + 1 < offs.len()
                    ==> offs[i] + j < offs[i + 1]) ==> #[trigger] d2[offs[i] + j] == to[j]
        }),
    decreases d.len() - pos,
{
    lemma_hexpatch_shape(d, from, to, pos);
    if pos + from.len() > d.len() {
    } else if d.subrange(pos, pos + from.len()) == from {
        let cl = if to.len() < d.len() - pos { to.len() as int } else { d.len() - pos };
        let d1 = spec_splice(d, pos, to.subrange(0, cl));
        law_hexpatch_writes_replacement(d1, from, to, pos + from.len());
        lemma_hexpatch_shape(d1, from, to, pos + from.len());
        let r = spec_hexpatch_from(d1, from, to, pos + from.len());
        let offs = seq![pos as usize] + r.1;
        let d2 = r.0;
        assert(spec_hexpatch_from(d, from, to, pos) == (d2, offs));
        assert(d1.len() == d.len());
        assert forall|k: int| 0 <= k < d.len() && (offs.len() == 0 || k < offs[0]) implies #[trigger] d2[k]
            == d[k] by {
            assert(d1[k] == d[k]);
            assert(r.1.len() > 0 ==> r.1[0] >= pos + from.len());
        }
        assert forall|i: int, j: int|
            0 <= i < offs.len() && 0 <= j < to.len() && offs[i] + j < d.len() && (i + 1 < offs.len() ==> offs[i]
                + j < offs[i + 1]) implies #[trigger] d2[offs[i] + j] == to[j] by {
            if i == 0 {
                assert(offs[0] == pos);
                assert(d1[pos + j] == to[j]);
                if r.1.len() > 0 {
                    assert(offs[1] == r.1[0]);
                }
                assert(d2[pos + j] == d1[pos + j]);
            } else {
                assert(offs[i] == r.1[i - 1]);
                if i + 1 < offs.len() {
                    assert(offs[i + 1] == r.1[i]);
                }
                assert(d2[r.1[i - 1] + j] == to[j]);
            }
        }
    } else {
        law_hexpatch_writes_replacement(d, from, to, pos + 1);
        assert(spec_hexpatch_from(d, from, to, pos) == spec_hexpatch_from(d, from, to, pos + 1));
    }
}

} // verus!
