//! Decimal and hexadecimal rendering of integers, with left padding, as the
//! `{}`, `{:x}`, `{:>N}` and `{:0N}` formats of `std::fmt` render them.
use vstd::prelude::*;

verus! {

/// The ASCII character of a digit below sixteen, lower case past nine.
pub open spec fn spec_digit_char(d: nat) -> u8 {
    if d < 10 {
        (0x30 + d) as u8
    } else {
        (0x61 + d - 10) as u8
    }
}

/// The decimal digits of `n`, most significant first, without leading zeros.
pub open spec fn spec_dec_digits(n: nat) -> Seq<u8>
    decreases n,
{
    if n < 10 {
        seq![spec_digit_char(n)]
    } else {
        spec_dec_digits(n / 10).push(spec_digit_char(n % 10))
    }
}

/// The lower-case hex digits of `n`, most significant first, without leading zeros.
pub open spec fn spec_hex_digits(n: nat) -> Seq<u8>
    decreases n,
{
    if n < 16 {
        seq![spec_digit_char(n)]
    } else {
        spec_hex_digits(n / 16).push(spec_digit_char(n % 16))
    }
}

/// `s` preceded by as many `fill` bytes as make it `width` long.
pub open spec fn spec_pad_left(s: Seq<u8>, width: nat, fill: u8) -> Seq<u8> {
    if s.len() >= width {
        s
    } else {
        Seq::new((width - s.len()) as nat, |i: int| fill) + s
    }
}

/// `n` as `{:08x}` renders it: lower-case hex, zero-padded to eight digits.
pub open spec fn spec_hex8(n: nat) -> Seq<u8> {
    spec_pad_left(spec_hex_digits(n), 8, 0x30)
}

/// The decimal digits of any number are ASCII.
pub proof fn lemma_dec_ascii(n: nat)
    ensures
        crate::text::spec_is_ascii(spec_dec_digits(n)),
    decreases n,
{
    if n >= 10 {
        lemma_dec_ascii(n / 10);
    }
}

/// A number below `16^k` has at most `k` hex digits.
pub proof fn lemma_hex_digits_len(n: nat)
    ensures
        spec_hex_digits(n).len() >= 1,
        n < 0x1_0000_0000 ==> spec_hex_digits(n).len() <= 8,
        n < 0x1000_0000 ==> spec_hex_digits(n).len() <= 7,
        n < 0x100_0000 ==> spec_hex_digits(n).len() <= 6,
        n < 0x10_0000 ==> spec_hex_digits(n).len() <= 5,
        n < 0x1_0000 ==> spec_hex_digits(n).len() <= 4,
        n < 0x1000 ==> spec_hex_digits(n).len() <= 3,
        n < 0x100 ==> spec_hex_digits(n).len() <= 2,
    decreases n,
{
    if n >= 16 {
        lemma_hex_digits_len(n / 16);
    }
}

fn digit_char(d: u64) -> (r: u8)
    requires
        d < 16,
    ensures
        r == spec_digit_char(d as nat),
{
    if d < 10 {
        0x30 + d as u8
    } else {
        0x61 + (d - 10) as u8
    }
}

/// The decimal digits of `n`.
pub fn dec_digits(n: u64) -> (r: Vec<u8>)
    ensures
        r@ == spec_dec_digits(n as nat),
    decreases n,
{
    if n < 10 {
        let mut v: Vec<u8> = Vec::new();
        v.push(digit_char(n));
        assert(v@ =~= seq![spec_digit_char(n as nat)]);
        v
    } else {
        let mut v = dec_digits(n / 10);
        v.push(digit_char(n % 10));
        v
    }
}

/// The lower-case hex digits of `n`.
pub fn hex_digits(n: u64) -> (r: Vec<u8>)
    ensures
        r@ == spec_hex_digits(n as nat),
    decreases n,
{
    if n < 16 {
        let mut v: Vec<u8> = Vec::new();
        v.push(digit_char(n));
        assert(v@ =~= seq![spec_digit_char(n as nat)]);
        v
    } else {
        let mut v = hex_digits(n / 16);
        v.push(digit_char(n % 16));
        v
    }
}

/// Appends `s` to `out`, preceded by `fill` bytes up to `width`.
pub fn push_padded(out: &mut Vec<u8>, s: &[u8], width: usize, fill: u8)
    ensures
        final(out)@ == old(out)@ + spec_pad_left(s@, width as nat, fill),
{
    let n = s.len();
    if n < width {
        let mut i: usize = 0;
        while i < width - n
            invariant
                n == s@.len(),
                n < width,
                i <= width - n,
                out@ == old(out)@ + Seq::new(i as nat, |j: int| fill),
            decreases width - n - i,
        {
            out.push(fill);
            i += 1;
            assert(out@ =~= old(out)@ + Seq::new(i as nat, |j: int| fill));
        }
    }
    crate::bytes::append_slice(out, s);
    assert(out@ =~= old(out)@ + spec_pad_left(s@, width as nat, fill));
}

/// Appends `n` as `{:08x}` renders it.
pub fn push_hex8(out: &mut Vec<u8>, n: u64)
    ensures
        final(out)@ == old(out)@ + spec_hex8(n as nat),
{
    let d = hex_digits(n);
    push_padded(out, d.as_slice(), 8, 0x30);
}

/// Appends `n` in decimal, right-aligned in a field of `width` spaces.
pub fn push_dec_right(out: &mut Vec<u8>, n: u64, width: usize)
    ensures
        final(out)@ == old(out)@ + spec_pad_left(spec_dec_digits(n as nat), width as nat, 0x20),
{
    let d = dec_digits(n);
    push_padded(out, d.as_slice(), width, 0x20);
}

} // verus!
