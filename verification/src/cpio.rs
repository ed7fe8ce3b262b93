//! Ramdisk archives in the "newc" cpio format: loading, editing, listing and
//! writing them back.
use vstd::prelude::*;
use crate::bytes::{append_slice, bytes_match_at, slice_to_vec, spec_starts_with_at, zeros};
use crate::constants::{cpio_magic, cpio_trailer, spec_cpio_magic, spec_cpio_trailer};
use crate::hexpatch::{hex_digit, spec_hex_digit};
use crate::numfmt::{
    lemma_dec_ascii, push_dec_right, push_hex8, spec_dec_digits, spec_hex8, spec_pad_left,
};
use crate::sorted_map::SortedMap;
use crate::text::{is_valid_utf8, spec_ascii_chars, spec_is_ascii, string_from_ascii};
use crate::utils::{align_padding, align_to, lemma_align_to, spec_align_to};

verus! {

/// Mask of the file-type bits of a mode.
pub const TYPE_MASK: u32 = 0o170000;
/// File type of a directory.
pub const TYPE_DIR: u32 = 0o040000;
/// File type of a regular file.
pub const TYPE_REGULAR: u32 = 0o100000;
/// File type of a symbolic link.
pub const TYPE_SYMLINK: u32 = 0o120000;
/// File type of a block device.
pub const TYPE_BLOCK: u32 = 0o060000;
/// File type of a character device.
pub const TYPE_CHAR: u32 = 0o020000;
/// File type of a named pipe.
pub const TYPE_FIFO: u32 = 0o010000;
/// File type of a socket.
pub const TYPE_SOCKET: u32 = 0o140000;

/// The short name of the file type in `mode`.
pub open spec fn spec_mode_type_name(mode: u32) -> Seq<char> {
    let t = mode & TYPE_MASK;
    if t == TYPE_DIR {
        "dir"@
    } else if t == TYPE_REGULAR {
        "reg"@
    } else if t == TYPE_SYMLINK {
        "sym"@
    } else if t == TYPE_BLOCK {
        "blk"@
    } else if t == TYPE_CHAR {
        "chr"@
    } else if t == TYPE_FIFO {
        "fifo"@
    } else if t == TYPE_SOCKET {
        "sock"@
    } else {
        "???"@
    }
}

/// The short name of the file type in `mode`.
pub fn mode_type_name(mode: u32) -> (r: &'static str)
    ensures
        r@ == spec_mode_type_name(mode),
{
    let t = mode & TYPE_MASK;
    if t == TYPE_DIR {
        "dir"
    } else if t == TYPE_REGULAR {
        "reg"
    } else if t == TYPE_SYMLINK {
        "sym"
    } else if t == TYPE_BLOCK {
        "blk"
    } else if t == TYPE_CHAR {
        "chr"
    } else if t == TYPE_FIFO {
        "fifo"
    } else if t == TYPE_SOCKET {
        "sock"
    } else {
        "???"
    }
}

/// `set` if the bit `bit` of `mode` is set, else `unset`.
pub open spec fn spec_flag(mode: u32, bit: u32, set: u8, unset: u8) -> u8 {
    if mode & bit != 0 {
        set
    } else {
        unset
    }
}

/// The execute column of a permission triple, which also shows the special
/// bit `special` (set-user-id, set-group-id or sticky) as `lower` or `upper`.
pub open spec fn spec_exec_flag(mode: u32, bit: u32, special: u32, lower: u8, upper: u8) -> u8 {
    if mode & bit != 0 {
        if mode & special != 0 {
            lower
        } else {
            0x78
        }
    } else {
        if mode & special != 0 {
            upper
        } else {
            0x2d
        }
    }
}

/// The ten characters of `ls -l` for `mode`, as bytes. The first is `d` when
/// any directory bit is set, else `l` when any symlink bit is set.
pub open spec fn spec_perm_bytes(mode: u32) -> Seq<u8> {
    seq![
        if mode & TYPE_DIR != 0 { 0x64u8 } else if mode & TYPE_SYMLINK != 0 { 0x6cu8 } else { 0x2du8 },
        spec_flag(mode, 0o400, 0x72, 0x2d),
        spec_flag(mode, 0o200, 0x77, 0x2d),
        spec_exec_flag(mode, 0o100, 0o4000, 0x73, 0x53),
        spec_flag(mode, 0o040, 0x72, 0x2d),
        spec_flag(mode, 0o020, 0x77, 0x2d),
        spec_exec_flag(mode, 0o010, 0o2000, 0x73, 0x53),
        spec_flag(mode, 0o004, 0x72, 0x2d),
        spec_flag(mode, 0o002, 0x77, 0x2d),
        spec_exec_flag(mode, 0o001, 0o1000, 0x74, 0x54),
    ]
}

fn flag(mode: u32, bit: u32, set: u8, unset: u8) -> (r: u8)
    ensures
        r == spec_flag(mode, bit, set, unset),
{
    if mode & bit != 0 {
        set
    } else {
        unset
    }
}

fn exec_flag(mode: u32, bit: u32, special: u32, lower: u8, upper: u8) -> (r: u8)
    ensures
        r == spec_exec_flag(mode, bit, special, lower, upper),
{
    if mode & bit != 0 {
        if mode & special != 0 {
            lower
        } else {
            0x78
        }
    } else {
        if mode & special != 0 {
            upper
        } else {
            0x2d
        }
    }
}

fn perm_bytes(mode: u32) -> (r: Vec<u8>)
    ensures
        r@ == spec_perm_bytes(mode),
{
    let mut v: Vec<u8> = Vec::new();
    v.push(
        if mode & TYPE_DIR != 0 {
            0x64u8
        } else if mode & TYPE_SYMLINK != 0 {
            0x6cu8
        } else {
            0x2du8
        },
    );
    v.push(flag(mode, 0o400, 0x72, 0x2d));
    v.push(flag(mode, 0o200, 0x77, 0x2d));
    v.push(exec_flag(mode, 0o100, 0o4000, 0x73, 0x53));
    v.push(flag(mode, 0o040, 0x72, 0x2d));
    v.push(flag(mode, 0o020, 0x77, 0x2d));
    v.push(exec_flag(mode, 0o010, 0o2000, 0x73, 0x53));
    v.push(flag(mode, 0o004, 0x72, 0x2d));
    v.push(flag(mode, 0o002, 0x77, 0x2d));
    v.push(exec_flag(mode, 0o001, 0o1000, 0x74, 0x54));
    assert(v@ =~= spec_perm_bytes(mode));
    v
}

/// The permission string of `mode` as `ls -l` shows it, such as `drwxr-xr-x`.
pub fn perm_string(mode: u32) -> (r: String)
    ensures
        r@ == spec_ascii_chars(spec_perm_bytes(mode)),
{
    let v = perm_bytes(mode);
    string_from_ascii(v)
}

/// One file of an archive.
#[derive(Clone)]
pub struct CpioEntry {
    pub mode: u32,
    pub uid: u32,
    pub gid: u32,
    pub rdev_major: u32,
    pub rdev_minor: u32,
    /// The contents of a file, `None` where it has none.
    pub data: Option<Vec<u8>>,
    /// The target of a symbolic link.
    pub symlink: Option<Vec<u8>>,
}

/// The value of a [`CpioEntry`].
pub struct CpioEntryModel {
    pub mode: u32,
    pub uid: u32,
    pub gid: u32,
    pub rdev_major: u32,
    pub rdev_minor: u32,
    pub data: Option<Seq<u8>>,
    pub symlink: Option<Seq<u8>>,
}

/// The value of an optional byte vector.
pub open spec fn opt_bytes(o: Option<Vec<u8>>) -> Option<Seq<u8>> {
    match o {
        Some(v) => Some(v@),
        None => None,
    }
}

impl View for CpioEntry {
    type V = CpioEntryModel;

    open spec fn view(&self) -> CpioEntryModel {
        CpioEntryModel {
            mode: self.mode,
            uid: self.uid,
            gid: self.gid,
            rdev_major: self.rdev_major,
            rdev_minor: self.rdev_minor,
            data: opt_bytes(self.data),
            symlink: opt_bytes(self.symlink),
        }
    }
}

/// The size that a listing shows for an entry: the length of its data.
pub open spec fn spec_entry_size(e: CpioEntryModel) -> nat {
    match e.data {
        Some(d) => d.len(),
        None => 0,
    }
}

/// How an entry is shown in a listing: permissions, owner, group and size,
/// then the device numbers when either is not zero.
pub open spec fn spec_entry_text(e: CpioEntryModel) -> Seq<u8> {
    let base = spec_perm_bytes(e.mode).push(0x20) + spec_pad_left(spec_dec_digits(e.uid as nat), 4, 0x20)
        + seq![0x20u8] + spec_pad_left(spec_dec_digits(e.gid as nat), 4, 0x20) + seq![0x20u8]
        + spec_pad_left(spec_dec_digits(spec_entry_size(e)), 8, 0x20);
    if e.rdev_major != 0 || e.rdev_minor != 0 {
        base + seq![0x20u8] + spec_pad_left(spec_dec_digits(e.rdev_major as nat), 3, 0x20)
            + seq![0x2cu8] + spec_pad_left(spec_dec_digits(e.rdev_minor as nat), 3, 0x20)
    } else {
        base
    }
}

proof fn lemma_pad_ascii(s: Seq<u8>, w: nat)
    requires
        spec_is_ascii(s),
    ensures
        spec_is_ascii(spec_pad_left(s, w, 0x20)),
{
}

impl CpioEntry {
    /// The listing text of the entry: permissions, owner, group, size and,
    /// where either is not zero, the device numbers.
    pub fn entry_text(&self) -> (r: Vec<u8>)
        ensures
            r@ == spec_entry_text(self@),
    {
        let mut v = perm_bytes(self.mode);
        v.push(0x20);
        push_dec_right(&mut v, self.uid as u64, 4);
        let ghost a = v@;
        v.push(0x20);
        assert(v@ =~= a + seq![0x20u8]);
        push_dec_right(&mut v, self.gid as u64, 4);
        let ghost b = v@;
        v.push(0x20);
        assert(v@ =~= b + seq![0x20u8]);
        let sz: usize = match &self.data {
            Some(d) => d.len(),
            None => 0,
        };
        push_dec_right(&mut v, sz as u64, 8);
        if self.rdev_major != 0 || self.rdev_minor != 0 {
            let ghost c = v@;
            v.push(0x20);
            assert(v@ =~= c + seq![0x20u8]);
            push_dec_right(&mut v, self.rdev_major as u64, 3);
            let ghost d = v@;
            v.push(0x2c);
            assert(v@ =~= d + seq![0x2cu8]);
            push_dec_right(&mut v, self.rdev_minor as u64, 3);
        }
        v
    }

    /// The listing text of the entry as a string.
    pub fn to_string(&self) -> (r: String)
        ensures
            r@ == spec_ascii_chars(spec_entry_text(self@)),
    {
        let v = self.entry_text();
        proof {
            let e = self@;
            lemma_dec_ascii(e.uid as nat);
            lemma_dec_ascii(e.gid as nat);
            lemma_dec_ascii(spec_entry_size(e));
            lemma_dec_ascii(e.rdev_major as nat);
            lemma_dec_ascii(e.rdev_minor as nat);
            lemma_pad_ascii(spec_dec_digits(e.uid as nat), 4);
            lemma_pad_ascii(spec_dec_digits(e.gid as nat), 4);
            lemma_pad_ascii(spec_dec_digits(spec_entry_size(e)), 8);
            lemma_pad_ascii(spec_dec_digits(e.rdev_major as nat), 3);
            lemma_pad_ascii(spec_dec_digits(e.rdev_minor as nat), 3);
            assert(spec_is_ascii(spec_perm_bytes(e.mode)));
            assert(spec_is_ascii(v@));
        }
        string_from_ascii(v)
    }
}

/// Why an archive could not be read.
#[derive(Debug, Clone, Copy, PartialEq, Eq, Structural)]
pub enum CpioError {
    /// A header does not begin with the newc magic.
    BadMagic,
    /// A header field or a name is not well-formed UTF-8.
    InvalidUtf8,
    /// A header field is not a hex number.
    InvalidHex,
    /// A name runs past the end of the archive.
    TruncatedHeader,
    /// The data of a file runs past the end of the archive.
    TruncatedData,
}

/// Whether every byte of `s` is a hex digit.
pub open spec fn spec_all_hex(s: Seq<u8>) -> bool {
    forall|i: int| 0 <= i < s.len() ==> (#[trigger] spec_hex_digit(s[i])) is Some
}

/// The number that the hex digits `s` stand for.
pub open spec fn spec_hex_value(s: Seq<u8>) -> nat
    decreases s.len(),
{
    if s.len() == 0 {
        0
    } else {
        spec_hex_value(s.drop_last()) * 16 + match spec_hex_digit(s.last()) {
            Some(d) => d as nat,
            None => 0,
        }
    }
}

/// A header field as `u32::from_str_radix(.., 16)` reads it, after the
/// field has been checked to be UTF-8: hex digits, optionally after a plus.
pub open spec fn spec_parse_hex8(s: Seq<u8>) -> Result<u32, CpioError> {
    if !vstd::utf8::valid_utf8(s) {
        Err(CpioError::InvalidUtf8)
    } else if s.len() > 0 && spec_all_hex(s) {
        Ok(spec_hex_value(s) as u32)
    } else if s.len() > 1 && s[0] == 0x2b && spec_all_hex(s.drop_first()) {
        Ok(spec_hex_value(s.drop_first()) as u32)
    } else {
        Err(CpioError::InvalidHex)
    }
}

/// Sixteen to the power `k`.
pub open spec fn spec_pow16(k: nat) -> nat
    decreases k,
{
    if k == 0 {
        1
    } else {
        16 * spec_pow16((k - 1) as nat)
    }
}

/// The header field of eight bytes at `off`.
fn parse_hex8(data: &[u8], off: usize) -> (r: Result<u32, CpioError>)
    requires
        off + 8 <= data@.len(),
    ensures
        r == spec_parse_hex8(data@.subrange(off as int, off + 8)),
{
    let n = data.len();
    let s = &data[off..off + 8];
    let ghost sv = data@.subrange(off as int, off + 8);
    assert(s@ =~= sv);
    if !is_valid_utf8(s) {
        return Err(CpioError::InvalidUtf8);
    }
    let start: usize = if s[0] == 0x2b {
        1
    } else {
        0
    };
    let ghost body = sv.subrange(start as int, 8);
    let mut val: u64 = 0;
    let mut i: usize = start;
    while i < 8
        invariant
            start <= i <= 8,
            start <= 1,
            (start == 1) == (sv[0] == 0x2b),
            vstd::utf8::valid_utf8(sv),
            sv == data@.subrange(off as int, off + 8),
            s@ == sv,
            sv.len() == 8,
            body == sv.subrange(start as int, 8),
            val == spec_hex_value(sv.subrange(start as int, i as int)),
            val < spec_pow16((i - start) as nat),
            spec_all_hex(sv.subrange(start as int, i as int)),
        decreases 8 - i,
    {
        match hex_digit(s[i]) {
            Some(d) => {
                proof {
                    let a = sv.subrange(start as int, i as int);
                    let b = sv.subrange(start as int, i + 1);
                    assert(b.drop_last() =~= a);
                    assert(b.last() == s@[i as int]);
                    assert(spec_pow16((i + 1 - start) as nat) == 16 * spec_pow16((i - start) as nat));
                    assert(spec_pow16(8) == 0x1_0000_0000) by {
                        reveal_with_fuel(spec_pow16, 9);
                    }
                    assert(spec_pow16((i - start) as nat) <= spec_pow16(8)) by {
                        lemma_pow16_mono((i - start) as nat, 8);
                    }
                    assert forall|j: int| 0 <= j < b.len() implies (#[trigger] spec_hex_digit(b[j])) is Some by {
                        if j < a.len() {
                            assert(b[j] == a[j]);
                        }
                    }
                }
                val = val * 16 + d as u64;
                i += 1;
            },
            None => {
                proof {
                    assert(sv[i as int] == body[i - start]);
                    assert(spec_hex_digit(sv[i as int]) is None);
                    assert(spec_hex_digit(body[i - start]) is None);
                    if start == 0 {
                        assert(!spec_all_hex(sv));
                        assert(sv[0] != 0x2b);
                    } else {
                        assert(sv.drop_first() =~= body);
                        assert(!spec_all_hex(sv)) by {
                            assert(spec_hex_digit(sv[0]) is None);
                        }
                        assert(!spec_all_hex(sv.drop_first()));
                    }
                }
                return Err(CpioError::InvalidHex);
            },
        }
    }
    proof {
        assert(spec_pow16(8) == 0x1_0000_0000) by {
            reveal_with_fuel(spec_pow16, 9);
        }
        lemma_pow16_mono((8 - start) as nat, 8);
        if start == 0 {
            assert(sv.subrange(0, 8) =~= sv);
        } else {
            assert(sv.drop_first() =~= sv.subrange(1, 8));
            assert(!spec_all_hex(sv)) by {
                assert(spec_hex_digit(sv[0]) is None);
            }
        }
    }
    Ok(val as u32)
}

/// Powers of sixteen grow with the exponent.
proof fn lemma_pow16_mono(a: nat, b: nat)
    requires
        a <= b,
    ensures
        spec_pow16(a) <= spec_pow16(b),
    decreases b,
{
    if a < b {
        lemma_pow16_mono(a, (b - 1) as nat);
    }
}

/// The numeric fields of a newc header.
pub struct CpioHeader {
    pub namesize: u32,
    pub filesize: u32,
    pub mode: u32,
    pub uid: u32,
    pub gid: u32,
    pub rdev_major: u32,
    pub rdev_minor: u32,
}

/// The header field at `off` bytes into the header that starts at `pos`.
pub open spec fn spec_field(data: Seq<u8>, pos: int, off: int) -> Result<u32, CpioError> {
    spec_parse_hex8(data.subrange(pos + off, pos + off + 8))
}

/// The fields of the header at `pos`, read in the order name size, file
/// size, mode, owner, group, device major, device minor: the first field
/// that does not read gives the error.
pub open spec fn spec_cpio_header(data: Seq<u8>, pos: int) -> Result<CpioHeader, CpioError> {
    match spec_field(data, pos, 94) {
        Err(e) => Err(e),
        Ok(namesize) => match spec_field(data, pos, 54) {
            Err(e) => Err(e),
            Ok(filesize) => match spec_field(data, pos, 14) {
                Err(e) => Err(e),
                Ok(mode) => match spec_field(data, pos, 30) {
                    Err(e) => Err(e),
                    Ok(uid) => match spec_field(data, pos, 38) {
                        Err(e) => Err(e),
                        Ok(gid) => match spec_field(data, pos, 46) {
                            Err(e) => Err(e),
                            Ok(rdev_major) => match spec_field(data, pos, 62) {
                                Err(e) => Err(e),
                                Ok(rdev_minor) => Ok(
                                    CpioHeader {
                                        namesize,
                                        filesize,
                                        mode,
                                        uid,
                                        gid,
                                        rdev_major,
                                        rdev_minor,
                                    },
                                ),
                            },
                        },
                    },
                },
            },
        },
    }
}

fn read_header(data: &[u8], pos: usize) -> (r: Result<CpioHeader, CpioError>)
    requires
        pos + 110 <= data@.len(),
    ensures
        r == spec_cpio_header(data@, pos as int),
{
    let n = data.len();
    let namesize = match parse_hex8(data, pos + 94) {
        Ok(v) => v,
        Err(e) => return Err(e),
    };
    let filesize = match parse_hex8(data, pos + 54) {
        Ok(v) => v,
        Err(e) => return Err(e),
    };
    let mode = match parse_hex8(data, pos + 14) {
        Ok(v) => v,
        Err(e) => return Err(e),
    };
    let uid = match parse_hex8(data, pos + 30) {
        Ok(v) => v,
        Err(e) => return Err(e),
    };
    let gid = match parse_hex8(data, pos + 38) {
        Ok(v) => v,
        Err(e) => return Err(e),
    };
    let rdev_major = match parse_hex8(data, pos + 46) {
        Ok(v) => v,
        Err(e) => return Err(e),
    };
    let rdev_minor = match parse_hex8(data, pos + 62) {
        Ok(v) => v,
        Err(e) => return Err(e),
    };
    Ok(CpioHeader { namesize, filesize, mode, uid, gid, rdev_major, rdev_minor })
}

/// The position of the first zero byte of `s`, or its length.
pub open spec fn spec_nul_index(s: Seq<u8>) -> nat
    decreases s.len(),
{
    if s.len() == 0 || s[0] == 0 {
        0
    } else {
        1 + spec_nul_index(s.drop_first())
    }
}

/// `s` up to its first zero byte.
pub open spec fn spec_trim_nul(s: Seq<u8>) -> Seq<u8> {
    s.subrange(0, spec_nul_index(s) as int)
}

proof fn lemma_nul_index_bound(s: Seq<u8>)
    ensures
        spec_nul_index(s) <= s.len(),
    decreases s.len(),
{
    if s.len() > 0 && s[0] != 0 {
        lemma_nul_index_bound(s.drop_first());
    }
}

/// `s` up to its first zero byte.
fn trim_nul(s: &[u8]) -> (r: &[u8])
    ensures
        r@ == spec_trim_nul(s@),
{
    let n = s.len();
    let mut i: usize = 0;
    assert(s@.subrange(0, n as int) =~= s@);
    while i < n && s[i] != 0
        invariant
            n == s@.len(),
            i <= n,
            spec_nul_index(s@) == i + spec_nul_index(s@.subrange(i as int, n as int)),
        decreases n - i,
    {
        assert(s@.subrange(i as int, n as int).drop_first() =~= s@.subrange(i + 1, n as int));
        i += 1;
    }
    assert(s@.subrange(0, n as int) =~= s@);
    &s[0..i]
}

/// The entry that a header and its file data stand for: data of a length
/// other than zero, held as the link target where the mode has a symlink bit.
pub open spec fn spec_loaded_entry(h: CpioHeader, body: Seq<u8>) -> CpioEntryModel {
    let file_data = if h.filesize > 0 {
        Some(body)
    } else {
        None
    };
    CpioEntryModel {
        mode: h.mode,
        uid: h.uid,
        gid: h.gid,
        rdev_major: h.rdev_major,
        rdev_minor: h.rdev_minor,
        data: if h.mode & TYPE_SYMLINK != 0 {
            None
        } else {
            file_data
        },
        symlink: if h.mode & TYPE_SYMLINK != 0 {
            file_data
        } else {
            None
        },
    }
}

/// Reading the archive `data` on from the header at `pos`, with the files
/// read so far in `m`. Reading stops at the trailer or where fewer bytes than
/// a header are left; a later file of the same name replaces an earlier one.
#[verifier::opaque]
pub open spec fn spec_cpio_load_from(
    data: Seq<u8>,
    pos: nat,
    m: Map<Seq<u8>, CpioEntryModel>,
) -> Result<Map<Seq<u8>, CpioEntryModel>, CpioError>
    decreases data.len() + 4 - pos,
{
    if pos + 110 > data.len() {
        Ok(m)
    } else if !spec_starts_with_at(data, pos as int, spec_cpio_magic()) {
        Err(CpioError::BadMagic)
    } else {
        match spec_cpio_header(data, pos as int) {
            Err(e) => Err(e),
            Ok(h) => {
                let name_end = pos + 110 + h.namesize;
                if name_end > data.len() {
                    Err(CpioError::TruncatedHeader)
                } else {
                    let name = spec_trim_nul(data.subrange(pos + 110 as int, name_end as int));
                    if !vstd::utf8::valid_utf8(name) {
                        Err(CpioError::InvalidUtf8)
                    } else if name == spec_cpio_trailer() {
                        Ok(m)
                    } else {
                        let data_off = spec_align_to(name_end as int, 4);
                        let data_end = data_off + h.filesize;
                        if data_end > data.len() {
                            Err(CpioError::TruncatedData)
                        } else {
                            let e = spec_loaded_entry(h, data.subrange(data_off, data_end));
                            let next = spec_align_to(data_end, 4);
                            proof {
                                lemma_align_to(name_end as int, 4);
                                lemma_align_to(data_end, 4);
                            }
                            spec_cpio_load_from(data, next as nat, m.insert(name, e))
                        }
                    }
                }
            },
        }
    }
}

/// The files of the archive `data`, or why it cannot be read.
pub open spec fn spec_cpio_load(data: Seq<u8>) -> Result<Map<Seq<u8>, CpioEntryModel>, CpioError> {
    spec_cpio_load_from(data, 0, Map::empty())
}

/// A ramdisk archive: its files by name.
pub struct Cpio {
    entries: SortedMap<CpioEntry>,
}

impl View for Cpio {
    type V = Map<Seq<u8>, CpioEntryModel>;

    closed spec fn view(&self) -> Map<Seq<u8>, CpioEntryModel> {
        self.entries.spec_map()
    }
}

impl Cpio {
    /// The names are kept sorted and distinct.
    pub closed spec fn wf(&self) -> bool {
        self.entries.wf()
    }

    /// The files in increasing order of name.
    pub closed spec fn spec_entries(&self) -> Seq<(Seq<u8>, CpioEntryModel)> {
        self.entries.spec_items()
    }

    /// The files in order of name are exactly the files of the archive, each
    /// name once.
    pub proof fn lemma_entries(&self)
        requires
            self.wf(),
        ensures
            crate::sorted_map::keys_sorted(self.spec_entries()),
            self@ == crate::sorted_map::seq_map(self.spec_entries()),
    {
    }

    /// An archive with no files.
    pub fn new() -> (r: Self)
        ensures
            r.wf(),
            r@ == Map::<Seq<u8>, CpioEntryModel>::empty(),
    {
        Cpio { entries: SortedMap::new() }
    }

    /// Reads an archive in the newc format.
    pub fn load_from_data(data: &[u8]) -> (r: Result<Self, CpioError>)
        requires
            data@.len() + 4 <= usize::MAX,
        ensures
            match r {
                Ok(c) => c.wf() && spec_cpio_load(data@) == Ok::<Map<Seq<u8>, CpioEntryModel>, CpioError>(c@),
                Err(e) => spec_cpio_load(data@) == Err::<Map<Seq<u8>, CpioEntryModel>, CpioError>(e),
            },
    {
        let mut cpio = Cpio::new();
        let n = data.len();
        let mut pos: usize = 0;
        loop
            invariant
                n == data@.len(),
                n + 4 <= usize::MAX,
                pos <= n + 3,
                cpio.wf(),
                spec_cpio_load_from(data@, pos as nat, cpio@) == spec_cpio_load(data@),
            decreases n + 4 - pos,
        {
            proof {
                reveal(spec_cpio_load_from);
            }
            if pos > n || n - pos < 110 {
                return Ok(cpio);
            }
            if !bytes_match_at(data, pos, cpio_magic()) {
                return Err(CpioError::BadMagic);
            }
            let h = match read_header(data, pos) {
                Ok(h) => h,
                Err(e) => return Err(e),
            };
            let hdr_end = pos + 110;
            let namesize = h.namesize as usize;
            if namesize > n - hdr_end {
                return Err(CpioError::TruncatedHeader);
            }
            let name_end = hdr_end + namesize;
            let raw = &data[hdr_end..name_end];
            let name = trim_nul(raw);
            proof {
                assert(raw@ =~= data@.subrange(pos + 110, name_end as int));
            }
            if !is_valid_utf8(name) {
                return Err(CpioError::InvalidUtf8);
            }
            let trailer = cpio_trailer();
            if name.len() == trailer.len() && bytes_match_at(name, 0, trailer) {
                proof {
                    assert(name@ =~= spec_cpio_trailer());
                }
                return Ok(cpio);
            }
            proof {
                if name@ == spec_cpio_trailer() {
                    assert(name@.subrange(0, 10) =~= name@);
                }
                lemma_align_to(name_end as int, 4);
            }
            let data_off = align_to(name_end, 4);
            let fs = h.filesize as usize;
            if data_off > n || fs > n - data_off {
                return Err(CpioError::TruncatedData);
            }
            let data_end = data_off + fs;
            let body = &data[data_off..data_end];
            let file_data: Option<Vec<u8>> = if fs > 0 {
                Some(slice_to_vec(body))
            } else {
                None
            };
            let entry = if h.mode & TYPE_SYMLINK != 0 {
                CpioEntry {
                    mode: h.mode,
                    uid: h.uid,
                    gid: h.gid,
                    rdev_major: h.rdev_major,
                    rdev_minor: h.rdev_minor,
                    data: None,
                    symlink: file_data,
                }
            } else {
                CpioEntry {
                    mode: h.mode,
                    uid: h.uid,
                    gid: h.gid,
                    rdev_major: h.rdev_major,
                    rdev_minor: h.rdev_minor,
                    data: file_data,
                    symlink: None,
                }
            };
            proof {
                assert(entry@ == spec_loaded_entry(h, data@.subrange(data_off as int, data_end as int)));
                lemma_align_to(data_end as int, 4);
            }
            let key = slice_to_vec(name);
            cpio.entries.insert(key, entry);
            pos = align_to(data_end, 4);
        }
    }
}

/// `k` zero bytes.
pub open spec fn spec_zeros(k: int) -> Seq<u8> {
    Seq::new(k as nat, |i: int| 0u8)
}

/// The newc header of a file whose name is `name_len` bytes long: every
/// field as eight hex digits, the link count one, the name size counting the
/// closing zero byte.
pub open spec fn spec_header_bytes(name_len: nat, e: CpioEntryModel, inode: nat) -> Seq<u8> {
    spec_cpio_magic() + spec_hex8(inode) + spec_hex8(e.mode as nat) + spec_hex8(e.uid as nat)
        + spec_hex8(e.gid as nat) + spec_hex8(1) + spec_hex8(0) + spec_hex8(spec_entry_size(e))
        + spec_hex8(0) + spec_hex8(0) + spec_hex8(e.rdev_major as nat) + spec_hex8(
        e.rdev_minor as nat,
    ) + spec_hex8(name_len + 1) + spec_hex8(0)
}

/// The bytes of one file in the archive: header, name, a zero byte and
/// padding to four bytes, then the data padded to four bytes. The target of a
/// symlink is not written.
pub open spec fn spec_entry_bytes(name: Seq<u8>, e: CpioEntryModel, inode: nat) -> Seq<u8> {
    let hdr_total = name.len() + 111int;
    let size = spec_entry_size(e);
    spec_header_bytes(name.len(), e, inode) + name + seq![0u8] + spec_zeros(
        spec_align_to(hdr_total, 4) - hdr_total,
    ) + (if size > 0 {
        e.data->Some_0 + spec_zeros(spec_align_to(size as int, 4) - size)
    } else {
        Seq::empty()
    })
}

/// The first inode number given to a file.
pub const FIRST_INODE: u32 = 300000;

/// The files of `items`, in order, numbered from the first inode on.
pub open spec fn spec_dump_entries(items: Seq<(Seq<u8>, CpioEntryModel)>) -> Seq<u8>
    decreases items.len(),
{
    if items.len() == 0 {
        Seq::empty()
    } else {
        spec_dump_entries(items.drop_last()) + spec_entry_bytes(
            items.last().0,
            items.last().1,
            (FIRST_INODE + items.len() - 1) as nat,
        )
    }
}

/// The entry that closes an archive.
pub open spec fn spec_trailer_entry() -> CpioEntryModel {
    CpioEntryModel {
        mode: 0,
        uid: 0,
        gid: 0,
        rdev_major: 0,
        rdev_minor: 0,
        data: None,
        symlink: None,
    }
}

/// The archive of `items`: each file in order, then the trailer.
pub open spec fn spec_cpio_dump(items: Seq<(Seq<u8>, CpioEntryModel)>) -> Seq<u8> {
    spec_dump_entries(items) + spec_entry_bytes(spec_cpio_trailer(), spec_trailer_entry(), 0)
}

/// Whether the sizes of an entry leave room for the arithmetic of writing it.
pub open spec fn spec_entry_fits(name: Seq<u8>, e: CpioEntryModel) -> bool {
    &&& name.len() + 120 <= usize::MAX
    &&& spec_entry_size(e) + 4 <= usize::MAX
}

/// Appends zero bytes.
fn push_zeros(out: &mut Vec<u8>, k: usize)
    ensures
        final(out)@ == old(out)@ + spec_zeros(k as int),
{
    let z = zeros(k);
    append_slice(out, z.as_slice());
}

/// Appends one file to `out`.
fn write_entry(out: &mut Vec<u8>, name: &[u8], e: &CpioEntry, inode: u32)
    requires
        spec_entry_fits(name@, e@),
    ensures
        final(out)@ == old(out)@ + spec_entry_bytes(name@, e@, inode as nat),
{
    let namesize = name.len() + 1;
    let filesize: usize = match &e.data {
        Some(d) => d.len(),
        None => 0,
    };
    let mut h: Vec<u8> = Vec::new();
    append_slice(&mut h, cpio_magic());
    assert(h@ =~= spec_cpio_magic());
    push_hex8(&mut h, inode as u64);
    push_hex8(&mut h, e.mode as u64);
    push_hex8(&mut h, e.uid as u64);
    push_hex8(&mut h, e.gid as u64);
    push_hex8(&mut h, 1);
    push_hex8(&mut h, 0);
    push_hex8(&mut h, filesize as u64);
    push_hex8(&mut h, 0);
    push_hex8(&mut h, 0);
    push_hex8(&mut h, e.rdev_major as u64);
    push_hex8(&mut h, e.rdev_minor as u64);
    push_hex8(&mut h, namesize as u64);
    push_hex8(&mut h, 0);
    assert(h@ == spec_header_bytes(name@.len(), e@, inode as nat));
    append_slice(&mut h, name);
    let ghost hn = h@;
    h.push(0);
    assert(h@ =~= hn + seq![0u8]);
    let hdr_total = 110 + namesize;
    let pad = align_padding(hdr_total, 4);
    push_zeros(&mut h, pad);
    let ghost head = h@;
    if filesize > 0 {
        let mut t: Vec<u8> = Vec::new();
        match &e.data {
            Some(d) => {
                append_slice(&mut t, d.as_slice());
            },
            None => {},
        }
        assert(t@ =~= e@.data->Some_0);
        let data_pad = align_padding(filesize, 4);
        push_zeros(&mut t, data_pad);
        append_slice(&mut h, t.as_slice());
    } else {
        assert(h@ =~= head + Seq::<u8>::empty());
    }
    assert(h@ == spec_entry_bytes(name@, e@, inode as nat));
    append_slice(out, h.as_slice());
}

impl Cpio {
    /// Writes the archive in the newc format: the files in order of name,
    /// numbered from the first inode on, then the trailer.
    pub fn dump(&self) -> (r: Vec<u8>)
        requires
            self.wf(),
            self.spec_entries().len() + FIRST_INODE <= u32::MAX,
            forall|i: int|
                0 <= i < self.spec_entries().len() ==> spec_entry_fits(
                    #[trigger] self.spec_entries()[i].0,
                    self.spec_entries()[i].1,
                ),
        ensures
            r@ == spec_cpio_dump(self.spec_entries()),
    {
        let ghost items = self.spec_entries();
        let mut out: Vec<u8> = Vec::new();
        let n = self.entries.len();
        let mut i: usize = 0;
        let mut inode: u32 = FIRST_INODE;
        assert(items.subrange(0, 0) =~= Seq::<(Seq<u8>, CpioEntryModel)>::empty());
        while i < n
            invariant
                n == items.len(),
                items == self.spec_entries(),
                self.wf(),
                i <= n,
                n + FIRST_INODE <= u32::MAX,
                inode == FIRST_INODE + i,
                forall|j: int| 0 <= j < items.len() ==> spec_entry_fits(#[trigger] items[j].0, items[j].1),
                out@ == spec_dump_entries(items.subrange(0, i as int)),
            decreases n - i,
        {
            let (name, e) = self.entries.get_at(i);
            proof {
                assert(spec_entry_fits(items[i as int].0, items[i as int].1));
            }
            write_entry(&mut out, name.as_slice(), e, inode);
            proof {
                let s = items.subrange(0, i + 1);
                assert(s.drop_last() =~= items.subrange(0, i as int));
                assert(s.last() == items[i as int]);
            }
            inode = inode + 1;
            i = i + 1;
        }
        assert(items.subrange(0, n as int) =~= items);
        let trailer_entry = CpioEntry {
            mode: 0,
            uid: 0,
            gid: 0,
            rdev_major: 0,
            rdev_minor: 0,
            data: None,
            symlink: None,
        };
        assert(trailer_entry@ == spec_trailer_entry());
        write_entry(&mut out, cpio_trailer(), &trailer_entry, 0);
        out
    }
}

/// `b` without its leading slashes.
pub open spec fn spec_trim_slashes(b: Seq<u8>) -> Seq<u8>
    decreases b.len(),
{
    if b.len() > 0 && b[0] == 0x2f {
        spec_trim_slashes(b.drop_first())
    } else {
        b
    }
}

/// `b` without its leading `./` pairs.
pub open spec fn spec_trim_dot_slash(b: Seq<u8>) -> Seq<u8>
    decreases b.len(),
{
    if b.len() >= 2 && b[0] == 0x2e && b[1] == 0x2f {
        spec_trim_dot_slash(b.subrange(2, b.len() as int))
    } else {
        b
    }
}

/// The UTF-8 encoding of the character whose code is the byte `x`.
pub open spec fn spec_latin1_char(x: u8) -> Seq<u8> {
    if x < 0x80 {
        seq![x]
    } else {
        seq![(0xc0 + x / 64) as u8, (0x80 + x % 64) as u8]
    }
}

/// Each byte of `b` taken as a character and encoded in UTF-8.
pub open spec fn spec_latin1_utf8(b: Seq<u8>) -> Seq<u8>
    decreases b.len(),
{
    if b.len() == 0 {
        Seq::empty()
    } else {
        spec_latin1_utf8(b.drop_last()) + spec_latin1_char(b.last())
    }
}

/// The name under which a path is kept: without leading slashes, then
/// without leading `./`, cut at the first zero byte, each remaining byte
/// taken as one character.
pub open spec fn spec_normalize_path(b: Seq<u8>) -> Seq<u8> {
    spec_latin1_utf8(spec_trim_nul(spec_trim_dot_slash(spec_trim_slashes(b))))
}

/// The name under which the path `path` is kept.
pub open spec fn spec_path_key(path: &str) -> Seq<u8> {
    spec_normalize_path(vstd::utf8::encode_utf8(path@))
}

/// The name under which the path `path` is kept.
pub fn normalize_path(path: &str) -> (r: Vec<u8>)
    ensures
        r@ == spec_path_key(path),
{
    let b = path.as_bytes();
    let n = b.len();
    let mut i: usize = 0;
    assert(b@.subrange(0, n as int) =~= b@);
    while i < n && b[i] == 0x2f
        invariant
            n == b@.len(),
            i <= n,
            spec_trim_slashes(b@) == spec_trim_slashes(b@.subrange(i as int, n as int)),
        decreases n - i,
    {
        assert(b@.subrange(i as int, n as int).drop_first() =~= b@.subrange(i + 1, n as int));
        i += 1;
    }
    let ghost t1 = b@.subrange(i as int, n as int);
    assert(spec_trim_slashes(b@) == t1);
    while n - i >= 2 && b[i] == 0x2e && b[i + 1] == 0x2f
        invariant
            n == b@.len(),
            i <= n,
            spec_trim_dot_slash(t1) == spec_trim_dot_slash(b@.subrange(i as int, n as int)),
        decreases n - i,
    {
        assert(b@.subrange(i as int, n as int).subrange(2, n - i) =~= b@.subrange(i + 2, n as int));
        i += 2;
    }
    let rest = &b[i..n];
    assert(spec_trim_dot_slash(t1) == rest@);
    let name = trim_nul(rest);
    let mut out: Vec<u8> = Vec::new();
    let m = name.len();
    let mut j: usize = 0;
    assert(name@.subrange(0, 0) =~= Seq::<u8>::empty());
    while j < m
        invariant
            m == name@.len(),
            j <= m,
            out@ == spec_latin1_utf8(name@.subrange(0, j as int)),
        decreases m - j,
    {
        let x = name[j];
        let ghost prev = out@;
        if x < 0x80 {
            out.push(x);
        } else {
            out.push(0xc0 + x / 64);
            out.push(0x80 + x % 64);
        }
        proof {
            let s = name@.subrange(0, j + 1);
            assert(s.drop_last() =~= name@.subrange(0, j as int));
            assert(s.last() == x);
            assert(out@ =~= prev + spec_latin1_char(x));
        }
        j += 1;
    }
    assert(name@.subrange(0, m as int) =~= name@);
    out
}

/// The name of a directory as a prefix of the names inside it: with a
/// closing slash.
pub open spec fn spec_dir_prefix(key: Seq<u8>) -> Seq<u8> {
    if key.len() > 0 && key.last() == 0x2f {
        key
    } else {
        key.push(0x2f)
    }
}

fn dir_prefix(key: &Vec<u8>) -> (r: Vec<u8>)
    ensures
        r@ == spec_dir_prefix(key@),
{
    let mut r = slice_to_vec(key.as_slice());
    let n = key.len();
    if !(n > 0 && key[n - 1] == 0x2f) {
        r.push(0x2f);
    }
    r
}

/// Whether `name` is `key` or lies under the directory `prefix`.
pub open spec fn spec_in_tree(name: Seq<u8>, key: Seq<u8>, prefix: Seq<u8>) -> bool {
    name == key || prefix.is_prefix_of(name)
}

/// The files of `m` once `key` is removed: recursively, every file at or
/// under it; else the file of that name and the directory of that name.
pub open spec fn spec_rm(
    m: Map<Seq<u8>, CpioEntryModel>,
    key: Seq<u8>,
    recursive: bool,
) -> Map<Seq<u8>, CpioEntryModel> {
    if recursive {
        m.filter_keys(|k: Seq<u8>| !spec_in_tree(k, key, spec_dir_prefix(key)))
    } else {
        m.remove(key).remove(spec_dir_prefix(key))
    }
}

/// Whether `k` is among the first `j` names of `ks`.
pub open spec fn spec_listed(ks: Seq<Seq<u8>>, j: int, k: Seq<u8>) -> bool {
    exists|q: int| 0 <= q < j && ks[q] == k
}

/// The files of `m` once `from` is renamed to `to`, where `from` is a file.
pub open spec fn spec_mv(
    m: Map<Seq<u8>, CpioEntryModel>,
    from: Seq<u8>,
    to: Seq<u8>,
) -> Map<Seq<u8>, CpioEntryModel> {
    if m.contains_key(from) {
        m.remove(from).insert(to, m[from])
    } else {
        m
    }
}

fn starts_with(name: &[u8], prefix: &[u8]) -> (r: bool)
    ensures
        r == prefix@.is_prefix_of(name@),
{
    let r = bytes_match_at(name, 0, prefix);
    proof {
        if prefix@.is_prefix_of(name@) {
            assert(name@.subrange(0, prefix@.len() as int) =~= prefix@);
        }
    }
    r
}

impl Cpio {
    /// Whether a file is kept under the name of `path`.
    pub fn path_exists(&self, path: &str) -> (r: bool)
        requires
            self.wf(),
        ensures
            r == self@.contains_key(spec_path_key(path)),
    {
        let key = normalize_path(path);
        self.entries.contains(key.as_slice())
    }

    /// Adds `entry` under the name of `path`, replacing a file of that name.
    pub fn add(&mut self, path: &str, entry: CpioEntry)
        requires
            old(self).wf(),
        ensures
            final(self).wf(),
            final(self)@ == old(self)@.insert(spec_path_key(path), entry@),
    {
        let key = normalize_path(path);
        self.entries.insert(key, entry);
    }

    /// Removes the file of `path` and the directory of that name, or with
    /// `recursive` everything at or under `path`.
    pub fn rm(&mut self, path: &str, recursive: bool) -> (r: Result<(), CpioError>)
        requires
            old(self).wf(),
        ensures
            r is Ok,
            final(self).wf(),
            final(self)@ == spec_rm(old(self)@, spec_path_key(path), recursive),
    {
        let key = normalize_path(path);
        let prefix = dir_prefix(&key);
        if !recursive {
            let _ = self.entries.remove(key.as_slice());
            let _ = self.entries.remove(prefix.as_slice());
            return Ok(());
        }
        let ghost m0 = self@;
        let ghost items = self.spec_entries();
        let n = self.entries.len();
        let mut found: Vec<Vec<u8>> = Vec::new();
        let mut i: usize = 0;
        while i < n
            invariant
                n == items.len(),
                items == self.spec_entries(),
                self@ == m0,
                self.wf(),
                m0 == crate::sorted_map::seq_map(items),
                i <= n,
                forall|j: int| 0 <= j < found@.len() ==> #[trigger] spec_in_tree(found@[j]@, key@, prefix@) && m0.contains_key(found@[j]@),
                forall|t: int|
                    0 <= t < i && spec_in_tree(#[trigger] items[t].0, key@, prefix@) ==> exists|j: int|
                        0 <= j < found@.len() && found@[j]@ == items[t].0,
            decreases n - i,
        {
            let (name, _e) = self.entries.get_at(i);
            let hit = if name.len() == key.len() {
                bytes_match_at(name.as_slice(), 0, key.as_slice())
            } else {
                false
            } || starts_with(name.as_slice(), prefix.as_slice());
            proof {
                crate::sorted_map::lemma_seq_map_at(items, i as int);
                if name@ == key@ {
                    assert(name@.subrange(0, key@.len() as int) =~= name@);
                }
                if name.len() == key.len() && spec_starts_with_at(name@, 0, key@) {
                    assert(name@ =~= name@.subrange(0, key@.len() as int));
                }
            }
            if hit {
                let ghost before = found@;
                found.push(slice_to_vec(name.as_slice()));
                proof {
                    assert forall|t: int|
                        0 <= t < i + 1 && spec_in_tree(#[trigger] items[t].0, key@, prefix@) implies exists|j: int|
                            0 <= j < found@.len() && found@[j]@ == items[t].0 by {
                        if t < i {
                            let j0 = choose|j: int| 0 <= j < before.len() && before[j]@ == items[t].0;
                            assert(found@[j0] == before[j0]);
                        } else {
                            assert(found@[before.len() as int]@ == items[t].0);
                        }
                    }
                }
            }
            i += 1;
        }
        let ghost fk = found@.map_values(|v: Vec<u8>| v@);
        let k_total = found.len();
        let mut j: usize = 0;
        assert(m0.filter_keys(|k: Seq<u8>| !spec_listed(fk, 0, k)) =~= m0);
        while j < k_total
            invariant
                k_total == found@.len(),
                fk == found@.map_values(|v: Vec<u8>| v@),
                j <= k_total,
                self.wf(),
                self@ == m0.filter_keys(|k: Seq<u8>| !spec_listed(fk, j as int, k)),
            decreases k_total - j,
        {
            let _ = self.entries.remove(found[j].as_slice());
            proof {
                let fj = fk[j as int];
                assert forall|k: Seq<u8>| #[trigger] spec_listed(fk, j + 1, k) == (spec_listed(fk, j as int, k) || k == fj) by {
                    if k == fj {
                        assert(fk[j as int] == k);
                    }
                    if spec_listed(fk, j + 1, k) {
                        let q = choose|q: int| 0 <= q < j + 1 && fk[q] == k;
                        if q < j {
                            assert(spec_listed(fk, j as int, k));
                        }
                    }
                }
                assert(self@ =~= m0.filter_keys(|k: Seq<u8>| !spec_listed(fk, j + 1, k)));
            }
            j += 1;
        }
        proof {
            assert forall|k: Seq<u8>| m0.contains_key(k) implies (spec_listed(fk, k_total as int, k) <==> spec_in_tree(k, key@, prefix@)) by {
                if spec_in_tree(k, key@, prefix@) {
                    let t = choose|t: int| 0 <= t < items.len() && #[trigger] items[t].0 == k;
                    assert(spec_in_tree(items[t].0, key@, prefix@));
                    let q = choose|q: int| 0 <= q < found@.len() && found@[q]@ == items[t].0;
                    assert(fk[q] == k);
                }
                if spec_listed(fk, k_total as int, k) {
                    let q = choose|q: int| 0 <= q < k_total && fk[q] == k;
                    assert(spec_in_tree(found@[q]@, key@, prefix@));
                }
            }
            assert(self@ =~= m0.filter_keys(|k: Seq<u8>| !spec_in_tree(k, key@, spec_dir_prefix(key@))));
        }
        Ok(())
    }

    /// Renames the file `from` to `to`, replacing a file of that name; a
    /// missing `from` changes nothing.
    pub fn mv(&mut self, from: &str, to: &str) -> (r: Result<(), CpioError>)
        requires
            old(self).wf(),
        ensures
            r is Ok,
            final(self).wf(),
            final(self)@ == spec_mv(old(self)@, spec_path_key(from), spec_path_key(to)),
    {
        let from_key = normalize_path(from);
        let to_key = normalize_path(to);
        match self.entries.remove(from_key.as_slice()) {
            Some(entry) => {
                self.entries.insert(to_key, entry);
            },
            None => {},
        }
        Ok(())
    }

    /// The files in order of name.
    pub fn entries(&self) -> (r: &SortedMap<CpioEntry>)
        ensures
            r.spec_items() == self.spec_entries(),
            r.spec_map() == self@,
    {
        &self.entries
    }
}

/// The prefix that a listing of the directory `key` strips from names: the
/// name with a closing slash, or nothing for the root.
pub open spec fn spec_ls_prefix(key: Seq<u8>) -> Seq<u8> {
    if key.len() > 0 && key.last() == 0x2f {
        key
    } else if key.len() == 0 {
        key
    } else {
        key.push(0x2f)
    }
}

/// The text ` -> `.
pub open spec fn spec_arrow() -> Seq<u8> {
    seq![0x20u8, 0x2d, 0x3e, 0x20]
}

/// The text `???`.
pub open spec fn spec_unknown() -> Seq<u8> {
    seq![0x3fu8, 0x3f, 0x3f]
}

/// The lines that a listing shows for one file: nothing when it lies outside
/// `prefix`, or, without `recursive`, deeper than one level; else the entry
/// text and the name relative to `prefix` (the whole name where that is
/// empty), then for a symlink its target, or `???` where that is not UTF-8.
pub open spec fn spec_ls_line(
    name: Seq<u8>,
    e: CpioEntryModel,
    prefix: Seq<u8>,
    recursive: bool,
) -> Seq<u8> {
    if !prefix.is_prefix_of(name) {
        Seq::empty()
    } else {
        let rel = name.subrange(prefix.len() as int, name.len() as int);
        if !recursive && rel.contains(0x2f) {
            Seq::empty()
        } else {
            spec_entry_text(e).push(0x20) + (if rel.len() == 0 {
                name
            } else {
                rel
            }).push(0x0a) + match e.symlink {
                Some(t) => spec_arrow() + (if vstd::utf8::valid_utf8(t) {
                    t
                } else {
                    spec_unknown()
                }).push(0x0a),
                None => Seq::empty(),
            }
        }
    }
}

/// The listing of `items` under `prefix`, in order.
pub open spec fn spec_ls(
    items: Seq<(Seq<u8>, CpioEntryModel)>,
    prefix: Seq<u8>,
    recursive: bool,
) -> Seq<u8>
    decreases items.len(),
{
    if items.len() == 0 {
        Seq::empty()
    } else {
        spec_ls(items.drop_last(), prefix, recursive) + spec_ls_line(
            items.last().0,
            items.last().1,
            prefix,
            recursive,
        )
    }
}

fn ls_line(name: &[u8], e: &CpioEntry, prefix: &[u8], recursive: bool) -> (r: Vec<u8>)
    ensures
        r@ == spec_ls_line(name@, e@, prefix@, recursive),
{
    if !starts_with(name, prefix) {
        return Vec::new();
    }
    let rel = &name[prefix.len()..name.len()];
    if !recursive && crate::text::contains_byte(rel, 0x2f) {
        return Vec::new();
    }
    let mut line = e.entry_text();
    line.push(0x20);
    let shown: &[u8] = if rel.len() == 0 {
        name
    } else {
        rel
    };
    let mut t1: Vec<u8> = slice_to_vec(shown);
    t1.push(0x0a);
    append_slice(&mut line, t1.as_slice());
    match &e.symlink {
        Some(t) => {
            let mut tail: Vec<u8> = Vec::new();
            tail.push(0x20);
            tail.push(0x2d);
            tail.push(0x3e);
            tail.push(0x20);
            assert(tail@ =~= spec_arrow());
            let mut target: Vec<u8> = if is_valid_utf8(t.as_slice()) {
                slice_to_vec(t.as_slice())
            } else {
                let mut q: Vec<u8> = Vec::new();
                q.push(0x3f);
                q.push(0x3f);
                q.push(0x3f);
                assert(q@ =~= spec_unknown());
                q
            };
            target.push(0x0a);
            append_slice(&mut tail, target.as_slice());
            append_slice(&mut line, tail.as_slice());
        },
        None => {
            assert(line@ =~= line@ + Seq::<u8>::empty());
        },
    }
    line
}

impl Cpio {
    /// The listing of the directory `path`: one line per file inside it, only
    /// its direct children unless `recursive`, each symlink followed by its
    /// target.
    pub fn ls(&self, path: &str, recursive: bool) -> (r: Vec<u8>)
        requires
            self.wf(),
        ensures
            r@ == spec_ls(self.spec_entries(), spec_ls_prefix(spec_path_key(path)), recursive),
    {
        let key = normalize_path(path);
        let k = key.len();
        let prefix: Vec<u8> = if k > 0 && key[k - 1] == 0x2f {
            key
        } else if k == 0 {
            key
        } else {
            let mut p = key;
            p.push(0x2f);
            p
        };
        let ghost items = self.spec_entries();
        let n = self.entries.len();
        let mut out: Vec<u8> = Vec::new();
        let mut i: usize = 0;
        assert(items.subrange(0, 0) =~= Seq::<(Seq<u8>, CpioEntryModel)>::empty());
        while i < n
            invariant
                n == items.len(),
                items == self.spec_entries(),
                i <= n,
                out@ == spec_ls(items.subrange(0, i as int), prefix@, recursive),
            decreases n - i,
        {
            let (name, e) = self.entries.get_at(i);
            let line = ls_line(name.as_slice(), e, prefix.as_slice(), recursive);
            append_slice(&mut out, line.as_slice());
            proof {
                let s = items.subrange(0, i + 1);
                assert(s.drop_last() =~= items.subrange(0, i as int));
                assert(s.last() == items[i as int]);
            }
            i += 1;
        }
        assert(items.subrange(0, n as int) =~= items);
        out
    }

    /// Whether the archive holds a file that Magisk leaves in a ramdisk it
    /// has patched.
    pub fn is_magisk_patched(&self) -> (r: bool)
        requires
            self.wf(),
        ensures
            r == (self@.contains_key(spec_path_key(".backup/.magisk")) || self@.contains_key(
                spec_path_key("init.magisk.rc"),
            ) || self@.contains_key(spec_path_key("overlay/init.magisk.rc"))),
    {
        self.path_exists(".backup/.magisk") || self.path_exists("init.magisk.rc") || self.path_exists(
            "overlay/init.magisk.rc",
        )
    }

    /// The files in order of name, for changing in place.
    pub fn entries_mut(&mut self) -> (r: &mut SortedMap<CpioEntry>)
        ensures
            r.spec_items() == old(self).spec_entries(),
            final(self).spec_entries() == final(r).spec_items(),
    {
        &mut self.entries
    }
}

/// A hex digit character reads back as its value.
proof fn lemma_digit_char_hex(d: nat)
    requires
        d < 16,
    ensures
        spec_hex_digit(crate::numfmt::spec_digit_char(d)) == Some(d as u8),
{
}

/// The hex digits of `n` read back as `n`.
proof fn lemma_hex_digits_value(n: nat)
    ensures
        spec_all_hex(crate::numfmt::spec_hex_digits(n)),
        spec_hex_value(crate::numfmt::spec_hex_digits(n)) == n,
        spec_is_ascii(crate::numfmt::spec_hex_digits(n)),
    decreases n,
{
    let s = crate::numfmt::spec_hex_digits(n);
    if n < 16 {
        lemma_digit_char_hex(n);
        assert(s.drop_last() =~= Seq::<u8>::empty());
        assert(spec_hex_value(Seq::<u8>::empty()) == 0);
        assert(s.last() == crate::numfmt::spec_digit_char(n));
        assert(spec_hex_value(s) == spec_hex_value(s.drop_last()) * 16 + n);
    } else {
        lemma_hex_digits_value(n / 16);
        lemma_digit_char_hex(n % 16);
        let p = crate::numfmt::spec_hex_digits(n / 16);
        assert(s.drop_last() =~= p);
        assert(s.last() == crate::numfmt::spec_digit_char(n % 16));
        assert(spec_hex_value(s) == spec_hex_value(p) * 16 + (n % 16));
        assert((n / 16) * 16 + n % 16 == n);
        assert forall|i: int| 0 <= i < s.len() implies (#[trigger] spec_hex_digit(s[i])) is Some by {
            if i < p.len() {
                assert(s[i] == p[i]);
            }
        }
    }
}

/// Leading zero digits do not change the value.
proof fn lemma_hex_value_zero_pad(k: nat, b: Seq<u8>)
    ensures
        spec_hex_value(Seq::new(k, |i: int| 0x30u8) + b) == spec_hex_value(b),
    decreases b.len(), k,
{
    let z = Seq::new(k, |i: int| 0x30u8);
    if b.len() == 0 {
        assert(z + b =~= z);
        if k > 0 {
            assert(z.drop_last() =~= Seq::new((k - 1) as nat, |i: int| 0x30u8));
            lemma_hex_value_zero_pad((k - 1) as nat, b);
            assert(Seq::new((k - 1) as nat, |i: int| 0x30u8) + b =~= Seq::new((k - 1) as nat, |i: int| 0x30u8));
        }
    } else {
        assert((z + b).drop_last() =~= z + b.drop_last());
        lemma_hex_value_zero_pad(k, b.drop_last());
    }
}

/// A field written as eight hex digits reads back as its value.
pub proof fn lemma_hex8_roundtrip(v: nat)
    requires
        v < 0x1_0000_0000,
    ensures
        spec_hex8(v).len() == 8,
        spec_is_ascii(spec_hex8(v)),
        spec_parse_hex8(spec_hex8(v)) == Ok::<u32, CpioError>(v as u32),
{
    crate::numfmt::lemma_hex_digits_len(v);
    lemma_hex_digits_value(v);
    let d = crate::numfmt::spec_hex_digits(v);
    let z = Seq::new((8 - d.len()) as nat, |i: int| 0x30u8);
    let h = spec_hex8(v);
    if d.len() < 8 {
        assert(h == z + d);
        lemma_hex_value_zero_pad((8 - d.len()) as nat, d);
        assert forall|i: int| 0 <= i < h.len() implies (#[trigger] spec_hex_digit(h[i])) is Some by {
            if i >= z.len() {
                assert(h[i] == d[i - z.len()]);
            }
        }
    } else {
        assert(h == d);
    }
    assert(spec_is_ascii(h));
    crate::text::lemma_ascii_utf8(h);
}

/// The entry that reading gives back for a file written from `e`: the
/// reader takes the group as owner, the link count as group and the time
/// and device major as device numbers, and takes data under a symlink mode
/// as the link target.
pub open spec fn spec_reloaded_entry(e: CpioEntryModel) -> CpioEntryModel {
    spec_loaded_entry(
        CpioHeader {
            namesize: 0,
            filesize: spec_entry_size(e) as u32,
            mode: e.mode,
            uid: e.gid,
            gid: 1,
            rdev_major: 0,
            rdev_minor: 0,
        },
        match e.data {
            Some(d) => d,
            None => Seq::empty(),
        },
    )
}

/// The header fields that reading finds in a header written for a name of
/// `name_len` bytes and the entry `e`.
pub open spec fn spec_reread_header(name_len: nat, e: CpioEntryModel) -> CpioHeader {
    CpioHeader {
        namesize: (name_len + 1) as u32,
        filesize: spec_entry_size(e) as u32,
        mode: e.mode,
        uid: e.gid,
        gid: 1,
        rdev_major: 0,
        rdev_minor: 0,
    }
}

/// The two parts of a concatenation.
proof fn lemma_add_parts(a: Seq<u8>, b: Seq<u8>)
    ensures
        (a + b).subrange(0, a.len() as int) == a,
        (a + b).subrange(a.len() as int, (a.len() + b.len()) as int) == b,
{
    assert((a + b).subrange(0, a.len() as int) =~= a);
    assert((a + b).subrange(a.len() as int, (a.len() + b.len()) as int) =~= b);
}

/// Where the fields lie in a written header.
proof fn lemma_header_slices(name_len: nat, e: CpioEntryModel, inode: nat)
    requires
        name_len + 1 < 0x1_0000_0000,
        spec_entry_size(e) < 0x1_0000_0000,
        inode < 0x1_0000_0000,
    ensures
        spec_header_bytes(name_len, e, inode).len() == 110,
        spec_header_bytes(name_len, e, inode).subrange(0, 6) == spec_cpio_magic(),
        spec_header_bytes(name_len, e, inode).subrange(14, 22) == spec_hex8(e.mode as nat),
        spec_header_bytes(name_len, e, inode).subrange(30, 38) == spec_hex8(e.gid as nat),
        spec_header_bytes(name_len, e, inode).subrange(38, 46) == spec_hex8(1),
        spec_header_bytes(name_len, e, inode).subrange(46, 54) == spec_hex8(0),
        spec_header_bytes(name_len, e, inode).subrange(54, 62) == spec_hex8(spec_entry_size(e)),
        spec_header_bytes(name_len, e, inode).subrange(62, 70) == spec_hex8(0),
        spec_header_bytes(name_len, e, inode).subrange(94, 102) == spec_hex8(name_len + 1),
{
    let size = spec_entry_size(e);
    lemma_hex8_roundtrip(inode);
    lemma_hex8_roundtrip(e.mode as nat);
    lemma_hex8_roundtrip(e.uid as nat);
    lemma_hex8_roundtrip(e.gid as nat);
    lemma_hex8_roundtrip(1);
    lemma_hex8_roundtrip(0);
    lemma_hex8_roundtrip(size);
    lemma_hex8_roundtrip(e.rdev_major as nat);
    lemma_hex8_roundtrip(e.rdev_minor as nat);
    lemma_hex8_roundtrip(name_len + 1);
    let p0 = spec_cpio_magic();
    let p1 = p0 + spec_hex8(inode);
    let p2 = p1 + spec_hex8(e.mode as nat);
    let p3 = p2 + spec_hex8(e.uid as nat);
    let p4 = p3 + spec_hex8(e.gid as nat);
    let p5 = p4 + spec_hex8(1);
    let p6 = p5 + spec_hex8(0);
    let p7 = p6 + spec_hex8(size);
    let p8 = p7 + spec_hex8(0);
    let p9 = p8 + spec_hex8(0);
    let p10 = p9 + spec_hex8(e.rdev_major as nat);
    let p11 = p10 + spec_hex8(e.rdev_minor as nat);
    let p12 = p11 + spec_hex8(name_len + 1);
    let h = p12 + spec_hex8(0);
    assert(h == spec_header_bytes(name_len, e, inode));
    lemma_add_parts(p0, spec_hex8(inode));
    lemma_add_parts(p1, spec_hex8(e.mode as nat));
    lemma_add_parts(p3, spec_hex8(e.gid as nat));
    lemma_add_parts(p4, spec_hex8(1));
    lemma_add_parts(p5, spec_hex8(0));
    lemma_add_parts(p6, spec_hex8(size));
    lemma_add_parts(p7, spec_hex8(0));
    lemma_add_parts(p11, spec_hex8(name_len + 1));
    assert(h.subrange(0, 6) =~= p0);
    assert(h.subrange(14, 22) =~= p2.subrange(14, 22));
    assert(h.subrange(30, 38) =~= p4.subrange(30, 38));
    assert(h.subrange(38, 46) =~= p5.subrange(38, 46));
    assert(h.subrange(46, 54) =~= p6.subrange(46, 54));
    assert(h.subrange(54, 62) =~= p7.subrange(54, 62));
    assert(h.subrange(62, 70) =~= p8.subrange(62, 70));
    assert(h.subrange(94, 102) =~= p12.subrange(94, 102));
}

/// A written header reads back its fields.
#[verifier::spinoff_prover]
proof fn lemma_header_reread(d: Seq<u8>, pos: int, name_len: nat, e: CpioEntryModel, inode: nat)
    requires
        0 <= pos,
        name_len + 1 < 0x1_0000_0000,
        spec_entry_size(e) < 0x1_0000_0000,
        inode < 0x1_0000_0000,
        pos + 110 <= d.len(),
        d.subrange(pos, pos + 110) == spec_header_bytes(name_len, e, inode),
    ensures
        spec_header_bytes(name_len, e, inode).len() == 110,
        spec_starts_with_at(d, pos, spec_cpio_magic()),
        spec_cpio_header(d, pos) == Ok::<CpioHeader, CpioError>(spec_reread_header(name_len, e)),
{
    lemma_header_slices(name_len, e, inode);
    lemma_hex8_roundtrip(e.mode as nat);
    lemma_hex8_roundtrip(e.gid as nat);
    lemma_hex8_roundtrip(1);
    lemma_hex8_roundtrip(0);
    lemma_hex8_roundtrip(spec_entry_size(e));
    lemma_hex8_roundtrip(name_len + 1);
    lemma_slice_of_slice(d, pos, 110, 0, 6);
    lemma_slice_of_slice(d, pos, 110, 94, 8);
    lemma_slice_of_slice(d, pos, 110, 54, 8);
    lemma_slice_of_slice(d, pos, 110, 14, 8);
    lemma_slice_of_slice(d, pos, 110, 30, 8);
    lemma_slice_of_slice(d, pos, 110, 38, 8);
    lemma_slice_of_slice(d, pos, 110, 46, 8);
    lemma_slice_of_slice(d, pos, 110, 62, 8);
}

/// A slice of a slice is a slice.
proof fn lemma_slice_of_slice(d: Seq<u8>, pos: int, len: int, off: int, k: int)
    requires
        0 <= pos,
        0 <= off,
        0 <= k,
        off + k <= len,
        pos + len <= d.len(),
    ensures
        d.subrange(pos + off, pos + off + k) == d.subrange(pos, pos + len).subrange(off, off + k),
{
    assert(d.subrange(pos + off, pos + off + k) =~= d.subrange(pos, pos + len).subrange(off, off + k));
}

/// Whether `s` holds no zero byte.
pub open spec fn spec_no_nul(s: Seq<u8>) -> bool {
    forall|i: int| 0 <= i < s.len() ==> s[i] != 0
}

/// A name without zero bytes ends at the zero byte written after it.
proof fn lemma_trim_nul_written(n: Seq<u8>)
    requires
        spec_no_nul(n),
    ensures
        spec_nul_index(n + seq![0u8]) == n.len(),
        spec_trim_nul(n + seq![0u8]) == n,
    decreases n.len(),
{
    let t = n + seq![0u8];
    if n.len() == 0 {
        assert(t[0] == 0);
        assert(t.subrange(0, 0) =~= n);
    } else {
        assert(t[0] == n[0]);
        assert(t[0] != 0);
        assert(t.drop_first() =~= n.drop_first() + seq![0u8]);
        lemma_trim_nul_written(n.drop_first());
        assert(spec_nul_index(t) == 1 + spec_nul_index(n.drop_first() + seq![0u8]));
        assert(t.subrange(0, n.len() as int) =~= n);
    }
}

/// Rounding up after an offset that is a multiple of four.
proof fn lemma_align_shift(p: int, x: int)
    requires
        p >= 0,
        x >= 0,
        p % 4 == 0,
    ensures
        spec_align_to(p + x, 4) == p + spec_align_to(x, 4),
{
    lemma_align_to(x, 4);
    lemma_align_to(p + x, 4);
    let a = spec_align_to(x, 4);
    let b = spec_align_to(p + x, 4);
    assert(b == p + a) by (nonlinear_arith)
        requires
            p % 4 == 0,
            a % 4 == 0,
            b % 4 == 0,
            x <= a <= x + 3,
            p + x <= b <= p + x + 3,
    ;
}

/// What reading needs of a file to give it back: a name without zero bytes
/// that is well-formed UTF-8 and not the trailer's, and sizes that fit the
/// eight hex digits of their fields.
pub open spec fn spec_rereadable(name: Seq<u8>, e: CpioEntryModel) -> bool {
    &&& spec_no_nul(name)
    &&& vstd::utf8::valid_utf8(name)
    &&& name != spec_cpio_trailer()
    &&& name.len() + 1 < 0x1_0000_0000
    &&& spec_entry_size(e) < 0x1_0000_0000
}

/// One step of reading: a header whose name is not the trailer's, with its
/// data inside the archive, adds its file and reading goes on after it.
proof fn lemma_load_step(d: Seq<u8>, pos: int, m: Map<Seq<u8>, CpioEntryModel>, h: CpioHeader, name: Seq<u8>)
    requires
        0 <= pos,
        pos + 110 <= d.len(),
        spec_starts_with_at(d, pos, spec_cpio_magic()),
        spec_cpio_header(d, pos) == Ok::<CpioHeader, CpioError>(h),
        pos + 110 + h.namesize <= d.len(),
        spec_trim_nul(d.subrange(pos + 110, pos + 110 + h.namesize)) == name,
        vstd::utf8::valid_utf8(name),
        name != spec_cpio_trailer(),
        spec_align_to(pos + 110 + h.namesize, 4) + h.filesize <= d.len(),
    ensures
        spec_cpio_load_from(d, pos as nat, m) == spec_cpio_load_from(
            d,
            spec_align_to(spec_align_to(pos + 110 + h.namesize, 4) + h.filesize, 4) as nat,
            m.insert(
                name,
                spec_loaded_entry(
                    h,
                    d.subrange(
                        spec_align_to(pos + 110 + h.namesize, 4),
                        spec_align_to(pos + 110 + h.namesize, 4) + h.filesize,
                    ),
                ),
            ),
        ),
{
    reveal(spec_cpio_load_from);
    lemma_align_to(pos + 110 + h.namesize, 4);
}

/// Reading the trailer's header ends the archive.
proof fn lemma_load_trailer_step(d: Seq<u8>, pos: int, m: Map<Seq<u8>, CpioEntryModel>, h: CpioHeader)
    requires
        0 <= pos,
        pos + 110 <= d.len(),
        spec_starts_with_at(d, pos, spec_cpio_magic()),
        spec_cpio_header(d, pos) == Ok::<CpioHeader, CpioError>(h),
        pos + 110 + h.namesize <= d.len(),
        spec_trim_nul(d.subrange(pos + 110, pos + 110 + h.namesize)) == spec_cpio_trailer(),
        vstd::utf8::valid_utf8(spec_cpio_trailer()),
    ensures
        spec_cpio_load_from(d, pos as nat, m) == Ok::<Map<Seq<u8>, CpioEntryModel>, CpioError>(m),
{
    reveal(spec_cpio_load_from);
}

/// Reading a file at a position that is a multiple of four gives back its
/// entry and goes on after it.
#[verifier::spinoff_prover]
#[verifier::rlimit(50)]
proof fn lemma_entry_reread(
    d: Seq<u8>,
    pos: int,
    name: Seq<u8>,
    e: CpioEntryModel,
    inode: nat,
    m: Map<Seq<u8>, CpioEntryModel>,
)
    requires
        0 <= pos,
        pos % 4 == 0,
        inode < 0x1_0000_0000,
        spec_rereadable(name, e),
        pos + spec_entry_bytes(name, e, inode).len() <= d.len(),
        d.subrange(pos, pos + spec_entry_bytes(name, e, inode).len()) == spec_entry_bytes(name, e, inode),
    ensures
        spec_entry_bytes(name, e, inode).len() % 4 == 0,
        spec_entry_bytes(name, e, inode).len() >= 110,
        spec_cpio_load_from(d, pos as nat, m) == spec_cpio_load_from(
            d,
            (pos + spec_entry_bytes(name, e, inode).len()) as nat,
            m.insert(name, spec_reloaded_entry(e)),
        ),
{
    let size = spec_entry_size(e);
    let ebytes = spec_entry_bytes(name, e, inode);
    let h = spec_header_bytes(name.len(), e, inode);
    lemma_header_slices(name.len(), e, inode);
    let hdr_total = name.len() + 111int;
    lemma_align_to(hdr_total, 4);
    lemma_align_to(size as int, 4);
    let z1 = spec_zeros(spec_align_to(hdr_total, 4) - hdr_total);
    let a = h + name + seq![0u8] + z1;
    let t = if size > 0 {
        e.data->Some_0 + spec_zeros(spec_align_to(size as int, 4) - size)
    } else {
        Seq::empty()
    };
    assert(ebytes == a + t);
    assert(a.len() == spec_align_to(hdr_total, 4));
    let w = d.subrange(pos, pos + ebytes.len());
    assert(d.subrange(pos, pos + 110) =~= h) by {
        assert forall|j: int| 0 <= j < 110 implies d[pos + j] == h[j] by {
            assert(d[pos + j] == w[j]);
            assert(w[j] == ebytes[j]);
        }
    }
    lemma_header_reread(d, pos, name.len(), e, inode);
    let name_end = pos + 110 + name.len() + 1;
    assert(d.subrange(pos + 110, name_end) =~= name + seq![0u8]) by {
        assert forall|j: int| 0 <= j < name.len() + 1 implies d[pos + 110 + j] == #[trigger] (name + seq![0u8])[j] by {
            assert(d[pos + 110 + j] == w[110 + j]);
            assert(w[110 + j] == ebytes[110 + j]);
        }
    }
    lemma_trim_nul_written(name);
    lemma_align_shift(pos, hdr_total);
    let data_off = spec_align_to(name_end, 4);
    assert(data_off == pos + a.len());
    let data_end = data_off + size;
    if size > 0 {
        let dd = e.data->Some_0;
        assert(dd.len() == size);
        assert(d.subrange(data_off, data_end) =~= dd) by {
            assert forall|j: int| 0 <= j < size implies d[data_off + j] == dd[j] by {
                assert(d[data_off + j] == w[a.len() + j]);
                assert(w[a.len() + j] == ebytes[a.len() + j]);
                assert(ebytes[a.len() + j] == t[j]);
            }
        }
        lemma_align_shift(pos + a.len(), size as int);
        assert(a.len() % 4 == 0);
        assert((pos + a.len()) % 4 == 0);
    } else {
        assert(spec_align_to(data_end, 4) == data_end) by {
            lemma_align_shift(data_end, 0);
        }
        assert(d.subrange(data_off, data_end) =~= Seq::<u8>::empty());
    }
    assert(spec_loaded_entry(spec_reread_header(name.len(), e), d.subrange(data_off, data_end)) == spec_reloaded_entry(e));
    lemma_load_step(d, pos, m, spec_reread_header(name.len(), e), name);
}

/// Reading the trailer at `pos` ends the archive.
#[verifier::spinoff_prover]
proof fn lemma_trailer_reread(d: Seq<u8>, pos: int, m: Map<Seq<u8>, CpioEntryModel>)
    requires
        0 <= pos,
        pos + spec_entry_bytes(spec_cpio_trailer(), spec_trailer_entry(), 0).len() <= d.len(),
        d.subrange(pos, pos + spec_entry_bytes(spec_cpio_trailer(), spec_trailer_entry(), 0).len())
            == spec_entry_bytes(spec_cpio_trailer(), spec_trailer_entry(), 0),
    ensures
        spec_cpio_load_from(d, pos as nat, m) == Ok::<Map<Seq<u8>, CpioEntryModel>, CpioError>(m),
{
    let name = spec_cpio_trailer();
    let e = spec_trailer_entry();
    let ebytes = spec_entry_bytes(name, e, 0);
    let h = spec_header_bytes(name.len(), e, 0);
    lemma_header_slices(name.len(), e, 0);
    let w = d.subrange(pos, pos + ebytes.len());
    assert(d.subrange(pos, pos + 110) =~= h) by {
        assert forall|j: int| 0 <= j < 110 implies d[pos + j] == h[j] by {
            assert(d[pos + j] == w[j]);
            assert(w[j] == ebytes[j]);
        }
    }
    lemma_header_reread(d, pos, name.len(), e, 0);
    let name_end = pos + 110 + name.len() + 1;
    assert(d.subrange(pos + 110, name_end) =~= name + seq![0u8]) by {
        assert forall|j: int| 0 <= j < name.len() + 1 implies d[pos + 110 + j] == #[trigger] (name + seq![0u8])[j] by {
            assert(d[pos + 110 + j] == w[110 + j]);
            assert(w[110 + j] == ebytes[110 + j]);
        }
    }
    assert(spec_no_nul(name));
    lemma_trim_nul_written(name);
    assert(spec_is_ascii(name));
    crate::text::lemma_ascii_utf8(name);
    lemma_load_trailer_step(d, pos, m, spec_reread_header(name.len(), e));
}

/// A written entry is a whole number of four-byte words.
proof fn lemma_entry_len(name: Seq<u8>, e: CpioEntryModel, inode: nat)
    requires
        inode < 0x1_0000_0000,
        name.len() + 1 < 0x1_0000_0000,
        spec_entry_size(e) < 0x1_0000_0000,
    ensures
        spec_entry_bytes(name, e, inode).len() % 4 == 0,
{
    lemma_header_slices(name.len(), e, inode);
    let size = spec_entry_size(e);
    let hdr_total = name.len() + 111int;
    lemma_align_to(hdr_total, 4);
    lemma_align_to(size as int, 4);
    if size > 0 {
        assert(e.data->Some_0.len() == size);
    }
}

/// The files of `items` with the entries that reading gives back for them.
pub open spec fn spec_reloaded_items(items: Seq<(Seq<u8>, CpioEntryModel)>) -> Seq<(Seq<u8>, CpioEntryModel)> {
    items.map_values(|p: (Seq<u8>, CpioEntryModel)| (p.0, spec_reloaded_entry(p.1)))
}

/// The bytes of the first files are a prefix of the bytes of all of them.
proof fn lemma_dump_prefix(items: Seq<(Seq<u8>, CpioEntryModel)>, k: int)
    requires
        0 <= k <= items.len(),
    ensures
        spec_dump_entries(items.subrange(0, k)).len() <= spec_dump_entries(items).len(),
        spec_dump_entries(items).subrange(0, spec_dump_entries(items.subrange(0, k)).len() as int)
            == spec_dump_entries(items.subrange(0, k)),
    decreases items.len(),
{
    let p = spec_dump_entries(items.subrange(0, k));
    if k == items.len() {
        assert(items.subrange(0, k) =~= items);
        assert(spec_dump_entries(items).subrange(0, p.len() as int) =~= p);
    } else {
        let it = items.drop_last();
        assert(it.subrange(0, k) =~= items.subrange(0, k));
        lemma_dump_prefix(it, k);
        let whole = spec_dump_entries(items);
        let front = spec_dump_entries(it);
        assert(whole.subrange(0, p.len() as int) =~= front.subrange(0, p.len() as int));
    }
}

/// The bytes of the first `k + 1` files are those of the first `k` and then
/// file `k`.
proof fn lemma_dump_step(items: Seq<(Seq<u8>, CpioEntryModel)>, k: int)
    requires
        0 <= k < items.len(),
    ensures
        spec_dump_entries(items.subrange(0, k + 1)) == spec_dump_entries(items.subrange(0, k))
            + spec_entry_bytes(items[k].0, items[k].1, (FIRST_INODE + k) as nat),
{
    let s = items.subrange(0, k + 1);
    assert(s.drop_last() =~= items.subrange(0, k));
    assert(s.last() == items[k]);
}

/// Whether every file of `items` can be read back, and their count leaves
/// their inode numbers within 32 bits.
pub open spec fn spec_items_rereadable(items: Seq<(Seq<u8>, CpioEntryModel)>) -> bool {
    &&& crate::sorted_map::keys_sorted(items)
    &&& items.len() + FIRST_INODE <= u32::MAX
    &&& forall|i: int| 0 <= i < items.len() ==> spec_rereadable(#[trigger] items[i].0, items[i].1)
}

/// The first `k` files take a whole number of words.
#[verifier::spinoff_prover]
#[verifier::rlimit(80)]
proof fn lemma_dump_words(items: Seq<(Seq<u8>, CpioEntryModel)>, k: int)
    requires
        0 <= k <= items.len(),
        spec_items_rereadable(items),
    ensures
        spec_dump_entries(items.subrange(0, k)).len() % 4 == 0,
    decreases k,
{
    if k == 0 {
        assert(items.subrange(0, 0) =~= Seq::<(Seq<u8>, CpioEntryModel)>::empty());
    } else {
        lemma_dump_words(items, k - 1);
        lemma_dump_step(items, k - 1);
        assert(spec_rereadable(items[k - 1].0, items[k - 1].1));
        lemma_entry_len(items[k - 1].0, items[k - 1].1, (FIRST_INODE + k - 1) as nat);
    }
}

/// Reading the archive from file `k` on, with the first `k` files read,
/// gives all files back.
#[verifier::spinoff_prover]
#[verifier::rlimit(80)]
proof fn lemma_reread_from(items: Seq<(Seq<u8>, CpioEntryModel)>, k: int)
    requires
        0 <= k <= items.len(),
        spec_items_rereadable(items),
    ensures
        spec_cpio_load_from(
            spec_cpio_dump(items),
            spec_dump_entries(items.subrange(0, k)).len(),
            crate::sorted_map::seq_map(spec_reloaded_items(items).subrange(0, k)),
        ) == Ok::<Map<Seq<u8>, CpioEntryModel>, CpioError>(
            crate::sorted_map::seq_map(spec_reloaded_items(items)),
        ),
    decreases items.len() - k,
{
    let d = spec_cpio_dump(items);
    let all = spec_dump_entries(items);
    let tb = spec_entry_bytes(spec_cpio_trailer(), spec_trailer_entry(), 0);
    let rl = spec_reloaded_items(items);
    let pk = spec_dump_entries(items.subrange(0, k));
    lemma_dump_prefix(items, k);
    lemma_dump_words(items, k);
    if k == items.len() {
        assert(items.subrange(0, k) =~= items);
        assert(d.subrange(all.len() as int, (all.len() + tb.len()) as int) =~= tb);
        lemma_trailer_reread(d, all.len() as int, crate::sorted_map::seq_map(rl.subrange(0, k)));
        assert(rl.subrange(0, k) =~= rl);
    } else {
        lemma_dump_step(items, k);
        lemma_dump_prefix(items, k + 1);
        let name = items[k].0;
        let e = items[k].1;
        let ino = (FIRST_INODE + k) as nat;
        let eb = spec_entry_bytes(name, e, ino);
        let pk1 = spec_dump_entries(items.subrange(0, k + 1));
        assert(pk1 == pk + eb);
        assert(d.subrange(pk.len() as int, (pk.len() + eb.len()) as int) =~= eb) by {
            assert forall|j: int| 0 <= j < eb.len() implies d[pk.len() + j] == eb[j] by {
                assert(d[pk.len() + j] == all[pk.len() + j]);
                assert(all[pk.len() + j] == all.subrange(0, pk1.len() as int)[pk.len() + j]);
                assert(pk1[pk.len() + j] == eb[j]);
            }
        }
        assert(spec_rereadable(name, e));
        let mk = crate::sorted_map::seq_map(rl.subrange(0, k));
        lemma_entry_reread(d, pk.len() as int, name, e, ino, mk);
        lemma_reread_from(items, k + 1);
        let kv = (name, spec_reloaded_entry(e));
        let s = rl.subrange(0, k);
        assert(s.insert(k, kv) =~= rl.subrange(0, k + 1));
        assert forall|i: int, j: int| 0 <= i < j < rl.len() implies crate::order::lex_lt(#[trigger] rl[i].0, #[trigger] rl[j].0) by {
            assert(rl[i].0 == items[i].0);
            assert(rl[j].0 == items[j].0);
        }
        assert(crate::sorted_map::keys_sorted(s));
        assert(crate::sorted_map::keys_sorted(s.insert(k, kv)));
        crate::sorted_map::lemma_map_insert(s, k, kv);
    }
}

/// Reading back a written archive gives back its files, with the entries
/// that reading makes of them (`spec_reloaded_entry`), wherever every name
/// is UTF-8 without zero bytes and not the trailer's, and the sizes fit their
/// fields.
pub proof fn law_load_dump(items: Seq<(Seq<u8>, CpioEntryModel)>)
    requires
        spec_items_rereadable(items),
    ensures
        spec_cpio_load(spec_cpio_dump(items)) == Ok::<Map<Seq<u8>, CpioEntryModel>, CpioError>(
            crate::sorted_map::seq_map(spec_reloaded_items(items)),
        ),
{
    lemma_reread_from(items, 0);
    assert(items.subrange(0, 0) =~= Seq::<(Seq<u8>, CpioEntryModel)>::empty());
    assert(spec_reloaded_items(items).subrange(0, 0) =~= Seq::<(Seq<u8>, CpioEntryModel)>::empty());
    assert(crate::sorted_map::seq_map(Seq::<(Seq<u8>, CpioEntryModel)>::empty()) =~= Map::<Seq<u8>, CpioEntryModel>::empty());
}

/// After adding a file under a path, the path exists and holds that file,
/// and the other files are as they were.
pub proof fn law_add_then_exists(m: Map<Seq<u8>, CpioEntryModel>, path: &str, e: CpioEntryModel)
    ensures
        m.insert(spec_path_key(path), e).contains_key(spec_path_key(path)),
        m.insert(spec_path_key(path), e)[spec_path_key(path)] == e,
        forall|k: Seq<u8>|
            k != spec_path_key(path) ==> (#[trigger] m.insert(spec_path_key(path), e).contains_key(k)
                == m.contains_key(k)),
{
}

/// The UTF-8 encoding of a path that starts with the ASCII character `c`.
proof fn lemma_encode_ascii_prefix(c: char, p: Seq<char>)
    requires
        (c as u32) < 0x80,
    ensures
        vstd::utf8::encode_utf8(seq![c] + p) == seq![c as u8] + vstd::utf8::encode_utf8(p),
{
    let cs = seq![c] + p;
    assert(cs.drop_first() =~= p);
    let v = c as u32;
    assert((v & 0x7f) as u8 == v as u8) by (bit_vector)
        requires
            v < 0x80,
    ;
    assert(vstd::utf8::encode_scalar(v) =~= seq![c as u8]);
}

/// The encoding of a path that does not start with `/` does not start with
/// the byte `/`.
proof fn lemma_encode_no_slash(p: Seq<char>)
    requires
        p.len() == 0 || p[0] != '/',
    ensures
        spec_trim_slashes(vstd::utf8::encode_utf8(p)) == vstd::utf8::encode_utf8(p),
{
    let e = vstd::utf8::encode_utf8(p);
    if p.len() > 0 {
        vstd::utf8::encode_utf8_first_scalar(p);
        vstd::utf8::char_is_scalar(p[0]);
        let b = e[0];
        if b == 0x2f {
            assert(vstd::utf8::is_leading_byte_width_1(b));
            assert(vstd::utf8::leading_bits_width_1(b) == 0x2fu32) by (bit_vector)
                requires
                    b == 0x2f,
            ;
            assert(p[0] as u32 == 0x2f);
            vstd::utf8::char_u32_cast(p[0], 0x2fu32);
            vstd::utf8::char_u32_cast('/', 0x2fu32);
            assert(false);
        }
    }
}

/// A leading `/` does not change the name under which a path is kept, and
/// neither does a leading `./` before a path that does not start with `/`:
/// `"/" + p` and `"./" + p` reach the same file as `p`.
pub proof fn law_path_key_prefixes(p: Seq<char>)
    ensures
        spec_normalize_path(vstd::utf8::encode_utf8(seq!['/'] + p)) == spec_normalize_path(
            vstd::utf8::encode_utf8(p),
        ),
        p.len() == 0 || p[0] != '/' ==> spec_normalize_path(vstd::utf8::encode_utf8(seq!['.', '/'] + p))
            == spec_normalize_path(vstd::utf8::encode_utf8(p)),
{
    let e = vstd::utf8::encode_utf8(p);
    lemma_encode_ascii_prefix('/', p);
    let a = seq![0x2fu8] + e;
    assert(a.drop_first() =~= e);
    assert(spec_trim_slashes(a) == spec_trim_slashes(e));
    if p.len() == 0 || p[0] != '/' {
        let q = seq!['/'] + p;
        lemma_encode_ascii_prefix('.', q);
        assert(seq!['.'] + q =~= seq!['.', '/'] + p);
        let b = seq![0x2eu8] + (seq![0x2fu8] + e);
        assert(spec_trim_slashes(b) == b);
        assert(b.subrange(2, b.len() as int) =~= e);
        assert(spec_trim_dot_slash(b) == spec_trim_dot_slash(e));
        lemma_encode_no_slash(p);
    }
}

proof fn lemma_nul_index_none(b: Seq<u8>)
    requires
        forall|i: int| 0 <= i < b.len() ==> b[i] != 0,
    ensures
        spec_nul_index(b) == b.len(),
    decreases b.len(),
{
    if b.len() > 0 {
        lemma_nul_index_none(b.drop_first());
    }
}

proof fn lemma_latin1_ascii(b: Seq<u8>)
    requires
        forall|i: int| 0 <= i < b.len() ==> b[i] < 0x80,
    ensures
        spec_latin1_utf8(b) == b,
    decreases b.len(),
{
    if b.len() > 0 {
        lemma_latin1_ascii(b.drop_last());
        assert(b.drop_last().push(b.last()) =~= b);
    }
}

/// The name under which an ASCII path without zero characters, and without
/// a leading `/` or `./`, is kept is the path itself, byte for byte.
pub proof fn law_ascii_path_key(p: Seq<char>)
    requires
        vstd::utf8::is_ascii_chars(p),
        forall|i: int| 0 <= i < p.len() ==> p[i] != '\0',
        p.len() == 0 || p[0] != '/',
        !(p.len() >= 2 && p[0] == '.' && p[1] == '/'),
    ensures
        vstd::utf8::encode_utf8(p) == Seq::new(p.len(), |i: int| p[i] as u8),
        spec_normalize_path(vstd::utf8::encode_utf8(p)) == vstd::utf8::encode_utf8(p),
{
    let b = vstd::utf8::encode_utf8(p);
    vstd::utf8::is_ascii_chars_encode_utf8(p);
    vstd::utf8::is_ascii_chars_nat_bound(p);
    assert forall|i: int| 0 <= i < b.len() implies b[i] < 0x80 && b[i] != 0 by {
        assert(p[i] as u8 == b[i]);
        assert((p[i] as nat) < 128);
        vstd::utf8::char_u32_cast(p[i], p[i] as u32);
        if b[i] == 0 {
            assert(p[i] as u32 == 0);
            vstd::utf8::char_u32_cast('\0', 0u32);
        }
    }
    assert(b =~= Seq::new(p.len(), |i: int| p[i] as u8));
    if b.len() > 0 {
        vstd::utf8::char_u32_cast(p[0], p[0] as u32);
        vstd::utf8::char_u32_cast('/', 0x2fu32);
        assert(b[0] != 0x2f);
    }
    if b.len() >= 2 {
        vstd::utf8::char_u32_cast(p[0], p[0] as u32);
        vstd::utf8::char_u32_cast(p[1], p[1] as u32);
        vstd::utf8::char_u32_cast('.', 0x2eu32);
        vstd::utf8::char_u32_cast('/', 0x2fu32);
        assert(!(b[0] == 0x2e && b[1] == 0x2f));
    }
    assert(spec_trim_slashes(b) == b);
    assert(spec_trim_dot_slash(b) == b);
    lemma_nul_index_none(b);
    assert(spec_trim_nul(b) =~= b);
    lemma_latin1_ascii(b);
}

/// Removing a path leaves neither the file nor the directory of that name;
/// with `recursive`, nothing at or under the path is left; every other file
/// stays as it was.
pub proof fn law_rm(m: Map<Seq<u8>, CpioEntryModel>, key: Seq<u8>)
    ensures
        !spec_rm(m, key, false).contains_key(key),
        !spec_rm(m, key, false).contains_key(spec_dir_prefix(key)),
        forall|k: Seq<u8>|
            k != key && k != spec_dir_prefix(key) && m.contains_key(k) ==> #[trigger] spec_rm(
                m,
                key,
                false,
            ).contains_key(k) && spec_rm(m, key, false)[k] == m[k],
        forall|k: Seq<u8>|
            #[trigger] spec_rm(m, key, true).contains_key(k) <==> (m.contains_key(k) && !spec_in_tree(
                k,
                key,
                spec_dir_prefix(key),
            )),
        forall|k: Seq<u8>| #[trigger] spec_rm(m, key, true).contains_key(k) ==> spec_rm(m, key, true)[k] == m[k],
{
}

/// Moving a file puts it under the new name and takes it from the old one;
/// the other files stay; a missing source changes nothing.
pub proof fn law_mv(m: Map<Seq<u8>, CpioEntryModel>, from: Seq<u8>, to: Seq<u8>)
    ensures
        m.contains_key(from) ==> spec_mv(m, from, to).contains_key(to) && spec_mv(m, from, to)[to]
            == m[from],
        m.contains_key(from) && from != to ==> !spec_mv(m, from, to).contains_key(from),
        !m.contains_key(from) ==> spec_mv(m, from, to) == m,
        forall|k: Seq<u8>|
            k != from && k != to ==> (#[trigger] spec_mv(m, from, to).contains_key(k) == m.contains_key(k)
                && (m.contains_key(k) ==> spec_mv(m, from, to)[k] == m[k])),
{
}

} // verus!
