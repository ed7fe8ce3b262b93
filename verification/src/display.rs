//! The text forms of versions, patch levels and ramdisk types.
use vstd::prelude::*;
use crate::bytes::append_slice;
use crate::numfmt::{dec_digits, lemma_dec_ascii, push_padded, spec_dec_digits, spec_pad_left};
use crate::parser::{BootImageVersion, OsVersion, PatchLevel, VendorRamdiskType};
use crate::text::{spec_ascii_chars, spec_is_ascii, string_from_ascii};

verus! {

/// `Android v` or `Vendor v`, then the version number.
pub open spec fn spec_version_text(v: BootImageVersion) -> Seq<u8> {
    match v {
        BootImageVersion::Android(n) => seq![0x41u8, 0x6e, 0x64, 0x72, 0x6f, 0x69, 0x64, 0x20, 0x76]
            + spec_dec_digits(n as nat),
        BootImageVersion::Vendor(n) => seq![0x56u8, 0x65, 0x6e, 0x64, 0x6f, 0x72, 0x20, 0x76]
            + spec_dec_digits(n as nat),
    }
}

/// The three numbers of an OS version joined by dots.
pub open spec fn spec_os_version_text(v: OsVersion) -> Seq<u8> {
    spec_dec_digits(v.a as nat) + seq![0x2eu8] + spec_dec_digits(v.b as nat) + seq![0x2eu8]
        + spec_dec_digits(v.c as nat)
}

/// The year, a dash, and the month in two digits at least.
pub open spec fn spec_patch_level_text(p: PatchLevel) -> Seq<u8> {
    spec_dec_digits(p.year as nat) + seq![0x2du8] + spec_pad_left(spec_dec_digits(p.month as nat), 2, 0x30)
}

/// `none`, `platform`, `recovery`, `dlkm`, or `unknown(n)`.
pub open spec fn spec_ramdisk_type_text(t: VendorRamdiskType) -> Seq<u8> {
    match t {
        VendorRamdiskType::NoType => seq![0x6eu8, 0x6f, 0x6e, 0x65],
        VendorRamdiskType::Platform => seq![0x70u8, 0x6c, 0x61, 0x74, 0x66, 0x6f, 0x72, 0x6d],
        VendorRamdiskType::Recovery => seq![0x72u8, 0x65, 0x63, 0x6f, 0x76, 0x65, 0x72, 0x79],
        VendorRamdiskType::Dlkm => seq![0x64u8, 0x6c, 0x6b, 0x6d],
        VendorRamdiskType::Unknown(n) => seq![0x75u8, 0x6e, 0x6b, 0x6e, 0x6f, 0x77, 0x6e, 0x28]
            + spec_dec_digits(n as nat) + seq![0x29u8],
    }
}

/// Appends the bytes of `lit`.
fn push_lit(out: &mut Vec<u8>, lit: &[u8])
    ensures
        final(out)@ == old(out)@ + lit@,
{
    append_slice(out, lit);
}

/// Appends the decimal digits of `n`.
fn push_dec(out: &mut Vec<u8>, n: u64)
    ensures
        final(out)@ == old(out)@ + spec_dec_digits(n as nat),
{
    let d = dec_digits(n);
    append_slice(out, d.as_slice());
}

impl BootImageVersion {
    /// The version as text, such as `Android v4`.
    pub fn to_string(&self) -> (r: String)
        ensures
            r@ == spec_ascii_chars(spec_version_text(*self)),
    {
        let mut v: Vec<u8> = Vec::new();
        match self {
            BootImageVersion::Android(n) => {
                let lit: [u8; 9] = [0x41, 0x6e, 0x64, 0x72, 0x6f, 0x69, 0x64, 0x20, 0x76];
                push_lit(&mut v, &lit);
                assert(lit@ =~= seq![0x41u8, 0x6e, 0x64, 0x72, 0x6f, 0x69, 0x64, 0x20, 0x76]);
                push_dec(&mut v, *n as u64);
                proof {
                    lemma_dec_ascii(*n as nat);
                }
            },
            BootImageVersion::Vendor(n) => {
                let lit: [u8; 8] = [0x56, 0x65, 0x6e, 0x64, 0x6f, 0x72, 0x20, 0x76];
                push_lit(&mut v, &lit);
                assert(lit@ =~= seq![0x56u8, 0x65, 0x6e, 0x64, 0x6f, 0x72, 0x20, 0x76]);
                push_dec(&mut v, *n as u64);
                proof {
                    lemma_dec_ascii(*n as nat);
                }
            },
        }
        assert(v@ =~= spec_version_text(*self));
        string_from_ascii(v)
    }
}

impl OsVersion {
    /// The version as text, such as `13.0.0`.
    pub fn to_string(&self) -> (r: String)
        ensures
            r@ == spec_ascii_chars(spec_os_version_text(*self)),
    {
        let mut v: Vec<u8> = Vec::new();
        push_dec(&mut v, self.a as u64);
        v.push(0x2e);
        push_dec(&mut v, self.b as u64);
        v.push(0x2e);
        push_dec(&mut v, self.c as u64);
        proof {
            lemma_dec_ascii(self.a as nat);
            lemma_dec_ascii(self.b as nat);
            lemma_dec_ascii(self.c as nat);
        }
        assert(v@ =~= spec_os_version_text(*self));
        string_from_ascii(v)
    }
}

impl PatchLevel {
    /// The patch level as text, such as `2023-05`.
    pub fn to_string(&self) -> (r: String)
        ensures
            r@ == spec_ascii_chars(spec_patch_level_text(*self)),
    {
        let mut v: Vec<u8> = Vec::new();
        push_dec(&mut v, self.year as u64);
        v.push(0x2d);
        let m = dec_digits(self.month as u64);
        push_padded(&mut v, m.as_slice(), 2, 0x30);
        proof {
            lemma_dec_ascii(self.year as nat);
            lemma_dec_ascii(self.month as nat);
        }
        assert(v@ =~= spec_patch_level_text(*self));
        string_from_ascii(v)
    }
}

impl VendorRamdiskType {
    /// The type as text, such as `platform`.
    pub fn to_string(&self) -> (r: String)
        ensures
            r@ == spec_ascii_chars(spec_ramdisk_type_text(*self)),
    {
        let mut v: Vec<u8> = Vec::new();
        match self {
            VendorRamdiskType::NoType => {
                let lit: [u8; 4] = [0x6e, 0x6f, 0x6e, 0x65];
                push_lit(&mut v, &lit);
            },
            VendorRamdiskType::Platform => {
                let lit: [u8; 8] = [0x70, 0x6c, 0x61, 0x74, 0x66, 0x6f, 0x72, 0x6d];
                push_lit(&mut v, &lit);
            },
            VendorRamdiskType::Recovery => {
                let lit: [u8; 8] = [0x72, 0x65, 0x63, 0x6f, 0x76, 0x65, 0x72, 0x79];
                push_lit(&mut v, &lit);
            },
            VendorRamdiskType::Dlkm => {
                let lit: [u8; 4] = [0x64, 0x6c, 0x6b, 0x6d];
                push_lit(&mut v, &lit);
            },
            VendorRamdiskType::Unknown(n) => {
                let lit: [u8; 8] = [0x75, 0x6e, 0x6b, 0x6e, 0x6f, 0x77, 0x6e, 0x28];
                push_lit(&mut v, &lit);
                push_dec(&mut v, *n as u64);
                v.push(0x29);
                proof {
                    lemma_dec_ascii(*n as nat);
                }
            },
        }
        assert(v@ =~= spec_ramdisk_type_text(*self));
        string_from_ascii(v)
    }
}

} // verus!
