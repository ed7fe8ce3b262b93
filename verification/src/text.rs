//! Byte-string helpers: UTF-8 validity and substring search.
use vstd::prelude::*;
use crate::bytes::{bytes_match_at, spec_starts_with_at};

verus! {

/// Whether `std::str::from_utf8` accepts `b`: the contract states that it
/// accepts exactly the well-formed UTF-8 encodings, as std documents.
#[verifier::external_body]
pub(crate) fn is_valid_utf8(b: &[u8]) -> (r: bool)
    ensures
        r == vstd::utf8::valid_utf8(b@),
{
    std::str::from_utf8(b).is_ok()
}

/// Whether `pat` occurs somewhere in `s`.
pub open spec fn spec_contains(s: Seq<u8>, pat: Seq<u8>) -> bool {
    exists|i: int| 0 <= i && #[trigger] spec_starts_with_at(s, i, pat)
}

/// Whether `pat` occurs somewhere in `s`.
pub fn contains(s: &[u8], pat: &[u8]) -> (r: bool)
    ensures
        r == spec_contains(s@, pat@),
{
    let n = s.len();
    let mut i: usize = 0;
    while i < n
        invariant
            n == s@.len(),
            i <= n,
            forall|j: int| 0 <= j < i ==> !#[trigger] spec_starts_with_at(s@, j, pat@),
        decreases n - i,
    {
        if bytes_match_at(s, i, pat) {
            return true;
        }
        i += 1;
    }
    if bytes_match_at(s, n, pat) {
        return true;
    }
    assert forall|j: int| 0 <= j implies !#[trigger] spec_starts_with_at(s@, j, pat@) by {
        if j > n {
            assert(!spec_starts_with_at(s@, j, pat@));
        }
    }
    false
}

/// Whether byte `b` occurs in `s`.
pub fn contains_byte(s: &[u8], b: u8) -> (r: bool)
    ensures
        r == exists|i: int| 0 <= i < s@.len() && s@[i] == b,
{
    let mut i: usize = 0;
    while i < s.len()
        invariant
            forall|j: int| 0 <= j < i ==> s@[j] != b,
        decreases s@.len() - i,
    {
        if s[i] == b {
            return true;
        }
        i += 1;
    }
    false
}


/// The characters that Unicode gives the White_Space property, which is what
/// `char::is_whitespace` and `str::trim` go by.
pub open spec fn spec_is_whitespace(c: char) -> bool {
    ||| ('\u{9}' <= c && c <= '\u{d}')
    ||| c == ' '
    ||| c == '\u{85}'
    ||| c == '\u{a0}'
    ||| c == '\u{1680}'
    ||| ('\u{2000}' <= c && c <= '\u{200a}')
    ||| c == '\u{2028}'
    ||| c == '\u{2029}'
    ||| c == '\u{202f}'
    ||| c == '\u{205f}'
    ||| c == '\u{3000}'
}

/// `s` without its leading whitespace.
pub open spec fn spec_trim_start(s: Seq<char>) -> Seq<char>
    decreases s.len(),
{
    if s.len() > 0 && spec_is_whitespace(s[0]) {
        spec_trim_start(s.subrange(1, s.len() as int))
    } else {
        s
    }
}

/// `s` without its trailing whitespace.
pub open spec fn spec_trim_end(s: Seq<char>) -> Seq<char>
    decreases s.len(),
{
    if s.len() > 0 && spec_is_whitespace(s.last()) {
        spec_trim_end(s.drop_last())
    } else {
        s
    }
}

/// `s` without leading and trailing whitespace.
pub open spec fn spec_trim(s: Seq<char>) -> Seq<char> {
    spec_trim_end(spec_trim_start(s))
}

/// `str::trim`: the string slice with leading and trailing whitespace removed,
/// whitespace being the Unicode White_Space characters, as std documents.
#[verifier::external_body]
pub(crate) fn str_trim(s: &str) -> (r: &str)
    ensures
        r@ == spec_trim(s@),
{
    s.trim()
}

/// `String::from_utf8`: the bytes as a string when they are well-formed
/// UTF-8, which std documents as the one condition of success.
#[verifier::external_body]
fn string_from_utf8(b: Vec<u8>) -> (r: Option<String>)
    ensures
        match r {
            Some(s) => vstd::utf8::valid_utf8(b@) && s@ == vstd::utf8::decode_utf8(b@),
            None => !vstd::utf8::valid_utf8(b@),
        },
{
    String::from_utf8(b).ok()
}

/// The characters that the ASCII bytes `b` stand for.
pub open spec fn spec_ascii_chars(b: Seq<u8>) -> Seq<char> {
    Seq::new(b.len(), |i: int| b[i] as char)
}

/// Whether every byte of `b` is ASCII.
pub open spec fn spec_is_ascii(b: Seq<u8>) -> bool {
    forall|i: int| 0 <= i < b.len() ==> b[i] < 0x80
}

/// ASCII bytes are well-formed UTF-8, and decode to the characters of the
/// same codes.
pub proof fn lemma_ascii_utf8(b: Seq<u8>)
    requires
        spec_is_ascii(b),
    ensures
        vstd::utf8::valid_utf8(b),
        vstd::utf8::decode_utf8(b) == spec_ascii_chars(b),
{
    let c = spec_ascii_chars(b);
    assert forall|i: int| 0 <= i < c.len() implies '\0' <= #[trigger] c[i] <= '\u{7f}' by {
        let x = b[i];
        assert((x as char) as u32 == x as u32);
    }
    assert(vstd::utf8::is_ascii_chars(c));
    vstd::utf8::is_ascii_chars_encode_utf8(c);
    assert forall|i: int| 0 <= i < c.len() implies vstd::utf8::encode_utf8(c)[i] == b[i] by {
        let x = b[i];
        assert(c[i] as u8 == vstd::utf8::encode_utf8(c)[i]);
        assert(((x as char) as u8) == x);
    }
    assert(vstd::utf8::encode_utf8(c) =~= b);
    vstd::utf8::encode_utf8_valid_utf8(c);
    vstd::utf8::encode_utf8_decode_utf8(c);
}

/// The string made of the ASCII bytes `b`.
pub fn string_from_ascii(b: Vec<u8>) -> (r: String)
    requires
        spec_is_ascii(b@),
    ensures
        r@ == spec_ascii_chars(b@),
{
    proof {
        lemma_ascii_utf8(b@);
    }
    match string_from_utf8(b) {
        Some(s) => s,
        None => String::new(),
    }
}

} // verus!
