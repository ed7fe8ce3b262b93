//! Repacking a parsed boot image with some of its parts replaced.
use vstd::prelude::*;
use crate::bytes::{
    append_slice, be64_bytes, le32_bytes, le64_bytes, slice_to_vec, spec_be64_bytes, spec_le32_bytes,
    spec_le64_bytes, spec_splice, splice_into, zeros,
};
use crate::compress::{
    get_encoder, is_compressed, parse_compress_format, spec_compressed, spec_is_compressed,
    spec_parse_compress_format, CompressError, CompressFormat,
};
use crate::constants::{ACCLAIM_PRE_HEADER_SZ, AVB_FOOTER_SIZE, BOOT_ID_SIZE, NOOKHD_PRE_HEADER_SZ};
use crate::layouts::{layout_wf, BootHeaderLayout};
use crate::parser::{
    opt_avb, spec_ramdisk_type_u32, AvbModel, BlocksModel, BootImage, RamdiskEntry,
    RamdiskEntryModel, AVB_OFFSET_ORIGINAL_IMAGE_SIZE, AVB_OFFSET_VBMETA_OFFSET,
};
use crate::sign::{compute_id, sha1_of, sha256_of, spec_id_message};
use crate::utils::spec_align_to;

verus! {

/// Bytes that are zero.
pub open spec fn spec_zeros(k: int) -> Seq<u8> {
    Seq::new(k as nat, |i: int| 0u8)
}

/// The output as it is being written: its bytes, the write position, and
/// whether a position ran past what `usize` holds.
pub struct OutState {
    pub buf: Seq<u8>,
    pub pos: int,
    pub overflow: bool,
}

/// `buf` with `bytes` written at `pos`, as a seekable file takes it: a gap
/// past the end reads as zeros, bytes past the end extend it.
pub open spec fn spec_put(buf: Seq<u8>, pos: int, bytes: Seq<u8>) -> Seq<u8> {
    let ext = if pos > buf.len() {
        buf + spec_zeros(pos - buf.len())
    } else {
        buf
    };
    let end = pos + bytes.len();
    ext.subrange(0, pos) + bytes + if end < ext.len() {
        ext.subrange(end, ext.len() as int)
    } else {
        Seq::empty()
    }
}

/// Writing `bytes` at the position, which then moves past them.
pub open spec fn spec_w(s: OutState, bytes: Seq<u8>) -> OutState {
    if s.overflow || s.pos + bytes.len() > usize::MAX {
        OutState { buf: s.buf, pos: s.pos, overflow: true }
    } else {
        OutState { buf: spec_put(s.buf, s.pos, bytes), pos: s.pos + bytes.len(), overflow: false }
    }
}

/// Moving the position to `p`.
pub open spec fn spec_seek(s: OutState, p: int) -> OutState {
    if s.overflow || p > usize::MAX {
        OutState { buf: s.buf, pos: s.pos, overflow: true }
    } else {
        OutState { buf: s.buf, pos: p, overflow: false }
    }
}

/// An output that is written like a file opened for writing.
struct OutBuf {
    buf: Vec<u8>,
    pos: usize,
    overflow: bool,
}

impl OutBuf {
    spec fn st(&self) -> OutState {
        OutState { buf: self.buf@, pos: self.pos as int, overflow: self.overflow }
    }

    fn new() -> (r: Self)
        ensures
            r.st() == (OutState { buf: Seq::empty(), pos: 0, overflow: false }),
    {
        OutBuf { buf: Vec::new(), pos: 0, overflow: false }
    }

    fn write(&mut self, bytes: &[u8])
        ensures
            final(self).st() == spec_w(old(self).st(), bytes@),
    {
        if self.overflow || bytes.len() > usize::MAX - self.pos {
            self.overflow = true;
            return;
        }
        let ghost b0 = self.buf@;
        let n = self.buf.len();
        if self.pos > n {
            let z = zeros(self.pos - n);
            append_slice(&mut self.buf, z.as_slice());
        }
        let ghost ext = self.buf@;
        assert(ext =~= if self.pos > b0.len() {
            b0 + spec_zeros(self.pos - b0.len())
        } else {
            b0
        });
        let len = self.buf.len();
        let room = len - self.pos;
        let k = if bytes.len() < room {
            bytes.len()
        } else {
            room
        };
        splice_into(&mut self.buf, self.pos, &bytes[0..k]);
        append_slice(&mut self.buf, &bytes[k..bytes.len()]);
        let ghost end = self.pos + bytes@.len();
        assert(self.buf@ =~= ext.subrange(0, self.pos as int) + bytes@ + if end < ext.len() {
            ext.subrange(end, ext.len() as int)
        } else {
            Seq::empty()
        });
        self.pos = self.pos + bytes.len();
    }

    fn seek(&mut self, p: u64)
        ensures
            final(self).st() == spec_seek(old(self).st(), p as int),
    {
        if self.overflow || p > usize::MAX as u64 {
            self.overflow = true;
            return;
        }
        self.pos = p as usize;
    }

    fn write_zeros(&mut self, n: usize)
        ensures
            final(self).st() == spec_w(old(self).st(), spec_zeros(n as int)),
    {
        let z = zeros(n);
        assert(z@ =~= spec_zeros(n as int));
        self.write(z.as_slice());
    }
}

/// The changes asked of a repack.
pub struct PatchOptsModel {
    pub replace_kernel: Option<Seq<u8>>,
    pub replace_ramdisk: Option<Seq<u8>>,
    pub replace_second: Option<Seq<u8>>,
    pub replace_extra: Option<Seq<u8>>,
    pub replace_recovery_dtbo: Option<Seq<u8>>,
    pub replace_dtb: Option<Seq<u8>>,
    pub replace_kernel_dtb: Option<Seq<u8>>,
    pub replace_bootconfig: Option<Seq<u8>>,
    pub replace_vendor_ramdisk: Seq<(usize, Seq<u8>)>,
    pub override_cmdline: Option<Seq<u8>>,
    pub override_os_version: Option<(u32, u32)>,
    pub no_compress: bool,
    pub patch_vbmeta_flags: bool,
}

/// The value of an optional byte vector.
pub open spec fn opt_seq(o: Option<Vec<u8>>) -> Option<Seq<u8>> {
    match o {
        Some(v) => Some(v@),
        None => None,
    }
}

/// A repack of `source` with the parts and fields that the builder methods set.
pub struct BootImagePatchOption<'a> {
    source: &'a BootImage<'a>,
    replace_kernel: Option<Vec<u8>>,
    replace_ramdisk: Option<Vec<u8>>,
    replace_second: Option<Vec<u8>>,
    replace_extra: Option<Vec<u8>>,
    replace_recovery_dtbo: Option<Vec<u8>>,
    replace_dtb: Option<Vec<u8>>,
    replace_kernel_dtb: Option<Vec<u8>>,
    replace_bootconfig: Option<Vec<u8>>,
    replace_vendor_ramdisk: Vec<(usize, Vec<u8>)>,
    override_cmdline: Option<Vec<u8>>,
    override_os_version: Option<(u32, u32)>,
    no_compress: bool,
    patch_vbmeta_flags: bool,
}

impl<'a> View for BootImagePatchOption<'a> {
    type V = PatchOptsModel;

    closed spec fn view(&self) -> PatchOptsModel {
        PatchOptsModel {
            replace_kernel: opt_seq(self.replace_kernel),
            replace_ramdisk: opt_seq(self.replace_ramdisk),
            replace_second: opt_seq(self.replace_second),
            replace_extra: opt_seq(self.replace_extra),
            replace_recovery_dtbo: opt_seq(self.replace_recovery_dtbo),
            replace_dtb: opt_seq(self.replace_dtb),
            replace_kernel_dtb: opt_seq(self.replace_kernel_dtb),
            replace_bootconfig: opt_seq(self.replace_bootconfig),
            replace_vendor_ramdisk: self.replace_vendor_ramdisk@.map_values(
                |p: (usize, Vec<u8>)| (p.0, p.1@),
            ),
            override_cmdline: opt_seq(self.override_cmdline),
            override_os_version: self.override_os_version,
            no_compress: self.no_compress,
            patch_vbmeta_flags: self.patch_vbmeta_flags,
        }
    }
}

impl<'a> BootImagePatchOption<'a> {
    /// The image that is repacked.
    pub closed spec fn source(&self) -> &'a BootImage<'a> {
        self.source
    }

    /// A repack of `source` that changes nothing.
    pub fn new(source: &'a BootImage<'a>) -> (r: Self)
        ensures
            r.source() == source,
            r@ == (PatchOptsModel {
                replace_kernel: None,
                replace_ramdisk: None,
                replace_second: None,
                replace_extra: None,
                replace_recovery_dtbo: None,
                replace_dtb: None,
                replace_kernel_dtb: None,
                replace_bootconfig: None,
                replace_vendor_ramdisk: Seq::empty(),
                override_cmdline: None,
                override_os_version: None,
                no_compress: false,
                patch_vbmeta_flags: false,
            }),
    {
        let r = Self {
            source,
            replace_kernel: None,
            replace_ramdisk: None,
            replace_second: None,
            replace_extra: None,
            replace_recovery_dtbo: None,
            replace_dtb: None,
            replace_kernel_dtb: None,
            replace_bootconfig: None,
            replace_vendor_ramdisk: Vec::new(),
            override_cmdline: None,
            override_os_version: None,
            no_compress: false,
            patch_vbmeta_flags: false,
        };
        assert(r@.replace_vendor_ramdisk =~= Seq::<(usize, Seq<u8>)>::empty());
        r
    }

    /// Replaces the kernel.
    pub fn replace_kernel(&mut self, data: Vec<u8>) -> (r: &mut Self)
        ensures
            r.source() == old(self).source(),
            r@ == (PatchOptsModel { replace_kernel: Some(data@), ..old(self)@ }),
            final(self).source() == final(r).source(),
            final(self)@ == final(r)@,
    {
        self.replace_kernel = Some(data);
        self
    }

    /// Replaces the ramdisk.
    pub fn replace_ramdisk(&mut self, data: Vec<u8>) -> (r: &mut Self)
        ensures
            r.source() == old(self).source(),
            r@ == (PatchOptsModel { replace_ramdisk: Some(data@), ..old(self)@ }),
            final(self).source() == final(r).source(),
            final(self)@ == final(r)@,
    {
        self.replace_ramdisk = Some(data);
        self
    }

    /// Replaces the second stage.
    pub fn replace_second(&mut self, data: Vec<u8>) -> (r: &mut Self)
        ensures
            r.source() == old(self).source(),
            r@ == (PatchOptsModel { replace_second: Some(data@), ..old(self)@ }),
            final(self).source() == final(r).source(),
            final(self)@ == final(r)@,
    {
        self.replace_second = Some(data);
        self
    }

    /// Replaces the extra part.
    pub fn replace_extra(&mut self, data: Vec<u8>) -> (r: &mut Self)
        ensures
            r.source() == old(self).source(),
            r@ == (PatchOptsModel { replace_extra: Some(data@), ..old(self)@ }),
            final(self).source() == final(r).source(),
            final(self)@ == final(r)@,
    {
        self.replace_extra = Some(data);
        self
    }

    /// Replaces the recovery DTBO.
    pub fn replace_recovery_dtbo(&mut self, data: Vec<u8>) -> (r: &mut Self)
        ensures
            r.source() == old(self).source(),
            r@ == (PatchOptsModel { replace_recovery_dtbo: Some(data@), ..old(self)@ }),
            final(self).source() == final(r).source(),
            final(self)@ == final(r)@,
    {
        self.replace_recovery_dtbo = Some(data);
        self
    }

    /// Replaces the DTB.
    pub fn replace_dtb(&mut self, data: Vec<u8>) -> (r: &mut Self)
        ensures
            r.source() == old(self).source(),
            r@ == (PatchOptsModel { replace_dtb: Some(data@), ..old(self)@ }),
            final(self).source() == final(r).source(),
            final(self)@ == final(r)@,
    {
        self.replace_dtb = Some(data);
        self
    }

    /// Replaces the DTB appended to the kernel.
    pub fn replace_kernel_dtb(&mut self, data: Vec<u8>) -> (r: &mut Self)
        ensures
            r.source() == old(self).source(),
            r@ == (PatchOptsModel { replace_kernel_dtb: Some(data@), ..old(self)@ }),
            final(self).source() == final(r).source(),
            final(self)@ == final(r)@,
    {
        self.replace_kernel_dtb = Some(data);
        self
    }

    /// Replaces the bootconfig.
    pub fn replace_bootconfig(&mut self, data: Vec<u8>) -> (r: &mut Self)
        ensures
            r.source() == old(self).source(),
            r@ == (PatchOptsModel { replace_bootconfig: Some(data@), ..old(self)@ }),
            final(self).source() == final(r).source(),
            final(self)@ == final(r)@,
    {
        self.replace_bootconfig = Some(data);
        self
    }

    /// Replaces the vendor ramdisk at `index` of the vendor ramdisk table.
    pub fn replace_vendor_ramdisk(&mut self, index: usize, data: Vec<u8>) -> (r: &mut Self)
        ensures
            r.source() == old(self).source(),
            r@ == (PatchOptsModel {
                replace_vendor_ramdisk: old(self)@.replace_vendor_ramdisk.push((index, data@)),
                ..old(self)@
            }),
            final(self).source() == final(r).source(),
            final(self)@ == final(r)@,
    {
        let ghost d = data@;
        self.replace_vendor_ramdisk.push((index, data));
        assert(self@.replace_vendor_ramdisk =~= old(self)@.replace_vendor_ramdisk.push((index, d)));
        self
    }

    /// Replaces the kernel command line.
    pub fn override_cmdline(&mut self, cmdline: Vec<u8>) -> (r: &mut Self)
        ensures
            r.source() == old(self).source(),
            r@ == (PatchOptsModel { override_cmdline: Some(cmdline@), ..old(self)@ }),
            final(self).source() == final(r).source(),
            final(self)@ == final(r)@,
    {
        self.override_cmdline = Some(cmdline);
        self
    }

    /// Replaces the OS version and patch level.
    pub fn override_os_version(&mut self, ver: u32, patch: u32) -> (r: &mut Self)
        ensures
            r.source() == old(self).source(),
            r@ == (PatchOptsModel { override_os_version: Some((ver, patch)), ..old(self)@ }),
            final(self).source() == final(r).source(),
            final(self)@ == final(r)@,
    {
        self.override_os_version = Some((ver, patch));
        self
    }

    /// Whether replacements are written as given, never compressed.
    pub fn no_compress(&mut self, v: bool) -> (r: &mut Self)
        ensures
            r.source() == old(self).source(),
            r@ == (PatchOptsModel { no_compress: v, ..old(self)@ }),
            final(self).source() == final(r).source(),
            final(self)@ == final(r)@,
    {
        self.no_compress = v;
        self
    }

    /// Sets the vbmeta flags option, which the repack keeps but does not act on.
    pub fn patch_vbmeta_flags(&mut self, v: bool) -> (r: &mut Self)
        ensures
            r.source() == old(self).source(),
            r@ == (PatchOptsModel { patch_vbmeta_flags: v, ..old(self)@ }),
            final(self).source() == final(r).source(),
            final(self)@ == final(r)@,
    {
        self.patch_vbmeta_flags = v;
        self
    }
}

/// Why a repack failed.
#[derive(Debug, Clone, Copy, PartialEq, Eq, Structural)]
pub enum PatchError {
    /// The new command line is longer than the header field.
    CmdlineTooLong,
    /// A replacement could not be compressed.
    Compress(CompressError),
    /// A size or position does not fit its field or the address space.
    TooLarge,
    /// The new payload runs into the AVB footer of the source image.
    AvbFooterOutOfRange,
}

/// The wrapper bytes that precede the header in the output: those of the
/// source image.
pub open spec fn spec_pre_header(img: &BootImage) -> Seq<u8> {
    let d = img.data@;
    let p = img.payload_offset as int;
    if img.is_dhtb {
        d.subrange(0, 512)
    } else if img.is_blob {
        d.subrange(0, 80)
    } else if img.is_nookhd {
        d.subrange(p, p + NOOKHD_PRE_HEADER_SZ)
    } else if img.is_acclaim {
        d.subrange(p, p + ACCLAIM_PRE_HEADER_SZ)
    } else {
        Seq::empty()
    }
}

/// The os_version field for OS version `ver` and patch level `patch`: the
/// version's two low bytes and the patch level, seven bits each.
pub open spec fn spec_os_version_field(ver: u32, patch: u32) -> u32 {
    ((((ver & 0x7f) << 14u32) | ((((ver >> 8u32) & 0x7f) << 7u32))) << 11u32) | ((patch & 0x7f) << 4u32)
}

/// Whether the parts of the source that a repack copies are there.
pub open spec fn spec_patch_source_ok(img: &BootImage) -> bool {
    let d = img.data@;
    let p = img.payload_offset as int;
    &&& img.header.spec_page_size() > 0
    &&& img.header.spec_layout().total_size + img.header.spec_page_size() <= usize::MAX
    &&& img.is_dhtb ==> d.len() >= 512
    &&& (!img.is_dhtb && img.is_blob) ==> d.len() >= 80
    &&& (!img.is_dhtb && !img.is_blob && img.is_nookhd) ==> p + NOOKHD_PRE_HEADER_SZ <= d.len()
    &&& (!img.is_dhtb && !img.is_blob && !img.is_nookhd && img.is_acclaim) ==> p
        + ACCLAIM_PRE_HEADER_SZ <= d.len()
    &&& (img.avb_info matches Some(a) ==> a.footer_data@.len() >= 28)
}

/// Whether `fmt` is the legacy lz4 format, whose stream records its input
/// size in four bytes.
pub open spec fn spec_is_lz4_legacy(fmt: CompressFormat) -> bool {
    fmt == CompressFormat::LZ4_LEGACY || fmt == CompressFormat::LZ4_LG
}

/// The bytes that stand for a part: the replacement, compressed in the
/// source part's format where that format is a compressed one, the replacement
/// is not, and compression is not turned off; else the source part.
pub open spec fn spec_block_bytes(
    o: PatchOptsModel,
    repl: Option<Seq<u8>>,
    orig: Option<Seq<u8>>,
    fmt: CompressFormat,
) -> Result<Seq<u8>, PatchError> {
    match repl {
        Some(d) => if !o.no_compress && !spec_is_compressed(spec_parse_compress_format(d))
            && spec_is_compressed(fmt) {
            if spec_is_lz4_legacy(fmt) && d.len() > u32::MAX {
                Err(PatchError::TooLarge)
            } else {
                match spec_compressed(fmt, d) {
                    Some(x) => Ok(x),
                    None => Err(PatchError::Compress(CompressError::Failed)),
                }
            }
        } else {
            Ok(d)
        },
        None => match orig {
            Some(x) => Ok(x),
            None => Ok(Seq::empty()),
        },
    }
}

/// A part that is never compressed: the replacement, else the source part.
pub open spec fn spec_plain(repl: Option<Seq<u8>>, orig: Option<Seq<u8>>) -> Seq<u8> {
    match repl {
        Some(d) => d,
        None => match orig {
            Some(x) => x,
            None => Seq::empty(),
        },
    }
}

/// Zeros up to the next multiple of `page` counted from `base`.
pub open spec fn spec_align_rel(s: OutState, base: int, page: int) -> OutState {
    if s.overflow || s.pos < base || s.pos - base + page > usize::MAX {
        OutState { buf: s.buf, pos: s.pos, overflow: true }
    } else {
        let v = s.pos - base;
        spec_w(s, spec_zeros(spec_align_to(v, page) - v))
    }
}

/// The header region: wrapper bytes, the source header, the command line
/// and OS version overrides; then the position at the first block.
#[verifier::opaque]
pub open spec fn spec_head(img: &BootImage, o: PatchOptsModel) -> Result<(OutState, int), PatchError> {
    let l = img.header.spec_layout();
    let s1 = spec_w(OutState { buf: Seq::empty(), pos: 0, overflow: false }, spec_pre_header(img));
    let hoff = s1.pos;
    let s2 = spec_w(s1, img.header.spec_data());
    if o.override_cmdline matches Some(c) && c.len() > l.size_cmdline {
        Err(PatchError::CmdlineTooLong)
    } else {
        let s3 = match o.override_cmdline {
            Some(c) => spec_w(
                spec_w(spec_seek(s2, hoff + l.offset_cmdline), c),
                spec_zeros(l.size_cmdline - c.len()),
            ),
            None => s2,
        };
        let s4 = match o.override_os_version {
            Some((v, p)) => if l.offset_os_version != 0 {
                spec_w(
                    spec_seek(s3, hoff + l.offset_os_version),
                    spec_le32_bytes(spec_os_version_field(v, p)),
                )
            } else {
                s3
            },
            None => s3,
        };
        Ok((spec_seek(s4, hoff + img.header.spec_hdr_space()), hoff))
    }
}

/// The kernel and its DTB, padded to a page; and the kernel size field.
#[verifier::opaque]
pub open spec fn spec_kernel_phase(img: &BootImage, o: PatchOptsModel, s: OutState, hoff: int) -> Result<
    (OutState, u32),
    PatchError,
> {
    let b = img.blocks@;
    let kfmt = match b.kernel {
        Some(k) => k.compress_format,
        None => CompressFormat::UNKNOWN,
    };
    let korig = match b.kernel {
        Some(k) => Some(k.data),
        None => None,
    };
    match spec_block_bytes(o, o.replace_kernel, korig, kfmt) {
        Err(e) => Err(e),
        Ok(kb) => {
            let kd = spec_plain(o.replace_kernel_dtb, b.kernel_dtb);
            let ksz = (kb.len() as u32) as int + (kd.len() as u32) as int;
            if ksz > u32::MAX {
                Err(PatchError::TooLarge)
            } else {
                Ok(
                    (
                        spec_align_rel(
                            spec_w(spec_w(s, kb), kd),
                            hoff,
                            img.header.spec_page_size() as int,
                        ),
                        ksz as u32,
                    ),
                )
            }
        },
    }
}

/// Whether the vendor ramdisk at `j` is replaced.
pub open spec fn spec_replaced(o: PatchOptsModel, j: int) -> bool {
    exists|q: int| 0 <= q < o.replace_vendor_ramdisk.len() && #[trigger] o.replace_vendor_ramdisk[q].0 == j
}

/// The first `k` vendor ramdisk replacements written in the order given;
/// one for an index past the table is left out.
pub open spec fn spec_vendor_repl(
    o: PatchOptsModel,
    ents: Seq<RamdiskEntryModel>,
    s0: OutState,
    k: int,
) -> Result<OutState, PatchError>
    decreases k,
{
    if k <= 0 {
        Ok(s0)
    } else {
        match spec_vendor_repl(o, ents, s0, k - 1) {
            Err(e) => Err(e),
            Ok(s) => {
                let (idx, data) = o.replace_vendor_ramdisk[k - 1];
                if idx < ents.len() {
                    match spec_block_bytes(o, Some(data), None, ents[idx as int].compress_format) {
                        Err(e) => Err(e),
                        Ok(bytes) => Ok(spec_w(s, bytes)),
                    }
                } else {
                    Ok(s)
                }
            },
        }
    }
}

/// The first `i` vendor ramdisks that are not replaced, as they were.
pub open spec fn spec_vendor_rest(
    o: PatchOptsModel,
    ents: Seq<RamdiskEntryModel>,
    s0: OutState,
    i: int,
) -> OutState
    decreases i,
{
    if i <= 0 {
        s0
    } else {
        let s = spec_vendor_rest(o, ents, s0, i - 1);
        if spec_replaced(o, i - 1) {
            s
        } else {
            spec_w(s, ents[i - 1].data)
        }
    }
}

/// The ramdisk, padded to a page, and the ramdisk size field: for a vendor
/// ramdisk table, the replacements then the untouched ramdisks.
#[verifier::opaque]
pub open spec fn spec_ramdisk_phase(img: &BootImage, o: PatchOptsModel, s: OutState, hoff: int) -> Result<
    (OutState, u32),
    PatchError,
> {
    let page = img.header.spec_page_size() as int;
    let (orig, fmt) = match img.blocks@.ramdisk {
        Some(r) => (Some(r.data), r.compress_format),
        None => (None, CompressFormat::UNKNOWN),
    };
    if img.blocks@.ramdisk matches Some(r) && r.vendor_entries is Some {
        let ents = img.blocks@.ramdisk->Some_0.vendor_entries->Some_0;
        match spec_vendor_repl(o, ents, s, o.replace_vendor_ramdisk.len() as int) {
            Err(e) => Err(e),
            Ok(s1) => {
                let s2 = spec_vendor_rest(o, ents, s1, ents.len() as int);
                Ok((spec_align_rel(s2, hoff, page), (s2.pos - s.pos) as u32))
            },
        }
    } else {
        match spec_block_bytes(o, o.replace_ramdisk, orig, fmt) {
            Err(e) => Err(e),
            Ok(rb) => Ok((spec_align_rel(spec_w(s, rb), hoff, page), rb.len() as u32)),
        }
    }
}

/// The sizes of the later parts, and where the recovery DTBO starts.
#[derive(Clone, Copy)]
pub struct MidSizes {
    pub second: u32,
    pub extra: u32,
    pub recovery_dtbo: u32,
    pub recovery_dtbo_off: u64,
    pub dtb: u32,
    pub table: u32,
    pub bootconfig: u32,
}

/// One entry of a vendor ramdisk table: size, offset, type, then the name,
/// cut to 32 bytes, and zeros.
pub open spec fn spec_table_entry(e: RamdiskEntryModel) -> Seq<u8> {
    let nl = if e.name.len() < 32 {
        e.name.len() as int
    } else {
        32
    };
    spec_le32_bytes(e.size) + spec_le32_bytes(e.offset) + spec_le32_bytes(spec_ramdisk_type_u32(e.entry_type))
        + e.name.subrange(0, nl) + spec_zeros(96 - nl)
}

/// The vendor ramdisk table of `ents`.
pub open spec fn spec_vendor_table(ents: Seq<RamdiskEntryModel>) -> Seq<u8>
    decreases ents.len(),
{
    if ents.len() == 0 {
        Seq::empty()
    } else {
        spec_vendor_table(ents.drop_last()) + spec_table_entry(ents.last())
    }
}

/// The vendor ramdisk table that is written, if any: that of the source, with
/// the offsets and sizes that the source gives.
pub open spec fn spec_source_table(b: BlocksModel) -> Option<Seq<RamdiskEntryModel>> {
    match b.ramdisk {
        Some(r) => r.vendor_entries,
        None => None,
    }
}

/// Second stage, extra part, recovery DTBO, DTB, signature, vendor ramdisk
/// table and bootconfig, each padded to a page.
#[verifier::opaque]
pub open spec fn spec_mid_phase(img: &BootImage, o: PatchOptsModel, s: OutState, hoff: int) -> Result<
    (OutState, MidSizes),
    PatchError,
> {
    let b = img.blocks@;
    let page = img.header.spec_page_size() as int;
    let sb = spec_plain(o.replace_second, b.second);
    let s1 = spec_align_rel(spec_w(s, sb), hoff, page);
    let eb = spec_plain(o.replace_extra, b.extra);
    let s2 = spec_align_rel(spec_w(s1, eb), hoff, page);
    let rdo: u64 = if s2.pos >= hoff {
        (s2.pos - hoff) as u64
    } else {
        0
    };
    let rb = spec_plain(o.replace_recovery_dtbo, b.recovery_dtbo);
    let s3 = spec_align_rel(spec_w(s2, rb), hoff, page);
    let db = spec_plain(o.replace_dtb, b.dtb);
    let s4 = spec_align_rel(spec_w(s3, db), hoff, page);
    let s5 = match b.signature {
        Some(sig) => spec_align_rel(spec_w(s4, sig), hoff, page),
        None => s4,
    };
    let (s6, tsz) = match spec_source_table(b) {
        Some(ents) => (
            spec_align_rel(spec_w(s5, spec_vendor_table(ents)), hoff, page),
            (ents.len() as u32) * 108,
        ),
        None => (s5, 0int),
    };
    if tsz > u32::MAX {
        Err(PatchError::TooLarge)
    } else {
        let bb = spec_plain(o.replace_bootconfig, b.bootconfig);
        let s7 = spec_align_rel(spec_w(s6, bb), hoff, page);
        Ok(
            (
                s7,
                MidSizes {
                    second: sb.len() as u32,
                    extra: eb.len() as u32,
                    recovery_dtbo: rb.len() as u32,
                    recovery_dtbo_off: rdo,
                    dtb: db.len() as u32,
                    table: tsz as u32,
                    bootconfig: bb.len() as u32,
                },
            ),
        )
    }
}

/// The size of the image from the header to the end of the last part.
pub open spec fn spec_img_size(payload_end: int, hoff: int) -> int {
    if payload_end >= hoff {
        payload_end - hoff
    } else {
        0
    }
}

/// The AVB footer of the source with the new vbmeta offset and image size.
pub open spec fn spec_new_footer(footer: Seq<u8>, vbmeta_off: int, img_size: int) -> Seq<u8> {
    spec_splice(
        spec_splice(footer, AVB_OFFSET_VBMETA_OFFSET as int, spec_be64_bytes(vbmeta_off as u64)),
        AVB_OFFSET_ORIGINAL_IMAGE_SIZE as int,
        spec_be64_bytes(img_size as u64),
    )
}

/// Where there is AVB data: the vbmeta at the next 4 KiB boundary, then the
/// footer at the place it had in the source, with what lies between taken
/// from the source. Without: zeros up to the size of the source.
#[verifier::opaque]
pub open spec fn spec_avb_phase(img: &BootImage, s: OutState, hoff: int) -> Result<OutState, PatchError> {
    let d = img.data@;
    let dl = d.len() as int;
    let payload_end = s.pos;
    match opt_avb(img.avb_info) {
        Some(a) => {
            let s1 = if s.overflow || s.pos + 4096 > usize::MAX {
                OutState { buf: s.buf, pos: s.pos, overflow: true }
            } else {
                spec_w(s, spec_zeros(spec_align_to(s.pos, 4096) - s.pos))
            };
            let vb = s1.pos;
            let s2 = spec_w(s1, a.header_data);
            if dl < AVB_FOOTER_SIZE {
                Err(PatchError::AvbFooterOutOfRange)
            } else if s2.pos + AVB_FOOTER_SIZE > dl && payload_end > dl - AVB_FOOTER_SIZE {
                Err(PatchError::AvbFooterOutOfRange)
            } else {
                let s3 = if s2.pos + AVB_FOOTER_SIZE > dl {
                    spec_seek(
                        spec_w(s2, d.subrange(payload_end, dl - AVB_FOOTER_SIZE)),
                        dl - AVB_FOOTER_SIZE,
                    )
                } else {
                    spec_seek(s2, dl - AVB_FOOTER_SIZE)
                };
                Ok(spec_w(s3, spec_new_footer(a.footer_data, vb, spec_img_size(payload_end, hoff))))
            }
        },
        None => Ok(
            if s.pos < dl {
                spec_w(s, spec_zeros(dl - s.pos))
            } else {
                s
            },
        ),
    }
}

/// Writing the little-endian `v` at `off` bytes into the header.
pub open spec fn spec_field32(s: OutState, hoff: int, off: u32, v: u32) -> OutState {
    spec_w(spec_seek(s, hoff + off), spec_le32_bytes(v))
}

/// `d` cut or padded with zeros to the length of the id field.
pub open spec fn spec_pad_id(d: Seq<u8>) -> Seq<u8> {
    if d.len() >= BOOT_ID_SIZE {
        d.subrange(0, BOOT_ID_SIZE as int)
    } else {
        d + spec_zeros(BOOT_ID_SIZE - d.len())
    }
}

/// The id of the repacked image: the digest of the sizes alone.
pub open spec fn spec_new_id(sha256: bool, k: u32, r: u32, m: MidSizes) -> Seq<u8> {
    let msg = spec_id_message(
        Seq::empty(),
        k,
        Seq::empty(),
        r,
        Seq::empty(),
        m.second,
        Seq::empty(),
        m.extra,
        None,
        m.recovery_dtbo,
        if m.dtb > 0 {
            Some(Seq::empty())
        } else {
            None
        },
        m.dtb,
    );
    spec_pad_id(
        if sha256 {
            sha256_of(msg)
        } else {
            sha1_of(msg)
        },
    )
}

/// The header fields set to the new sizes.
#[verifier::opaque]
pub open spec fn spec_fix_sizes(img: &BootImage, s: OutState, hoff: int, k: u32, r: u32, m: MidSizes) -> OutState {
    let l = img.header.spec_layout();
    let s1 = spec_field32(s, hoff, l.offset_kernel_size, k);
    let s2 = if l.offset_ramdisk_size != 0 {
        spec_field32(s1, hoff, l.offset_ramdisk_size, r)
    } else {
        s1
    };
    let s3 = if l.offset_second_size != 0 {
        spec_field32(s2, hoff, l.offset_second_size, m.second)
    } else {
        s2
    };
    let s4 = if l.offset_extra_size != 0 {
        spec_field32(s3, hoff, l.offset_extra_size, m.extra)
    } else {
        s3
    };
    let s5 = if l.offset_recovery_dtbo_size != 0 {
        spec_w(
            spec_seek(
                spec_field32(s4, hoff, l.offset_recovery_dtbo_size, m.recovery_dtbo),
                hoff + l.offset_recovery_dtbo_offset,
            ),
            spec_le64_bytes(m.recovery_dtbo_off),
        )
    } else {
        s4
    };
    let s6 = if l.offset_dtb_size != 0 {
        spec_field32(s5, hoff, l.offset_dtb_size, m.dtb)
    } else {
        s5
    };
    let s7 = if l.offset_header_size != 0 {
        spec_field32(s6, hoff, l.offset_header_size, l.total_size)
    } else {
        s6
    };
    let s8 = if l.offset_vendor_ramdisk_table_size != 0 && m.table > 0 {
        spec_field32(s7, hoff, l.offset_vendor_ramdisk_table_size, m.table)
    } else {
        s7
    };
    let s9 = if l.offset_bootconfig_size != 0 {
        spec_field32(s8, hoff, l.offset_bootconfig_size, m.bootconfig)
    } else {
        s8
    };
    s9
}

/// The header fields set to the new sizes, the id set to the new digest, and
/// the size in a DHTB or blob wrapper set to the new image size.
#[verifier::opaque]
pub open spec fn spec_fix_header(
    img: &BootImage,
    s: OutState,
    hoff: int,
    k: u32,
    r: u32,
    m: MidSizes,
    img_size: int,
) -> OutState {
    let l = img.header.spec_layout();
    let s9 = spec_fix_sizes(img, s, hoff, k, r, m);
    let s10 = if l.offset_id != 0 {
        spec_w(spec_seek(s9, hoff + l.offset_id), spec_new_id(img.sha256_id, k, r, m))
    } else {
        s9
    };
    if img.is_dhtb {
        spec_w(spec_seek(s10, 48), spec_le32_bytes((img_size + 20) as u32))
    } else if img.is_blob {
        spec_w(spec_seek(s10, 72), spec_le32_bytes(img_size as u32))
    } else {
        s10
    }
}

/// The repacked image of `img` with the changes `o`.
pub open spec fn spec_patch(img: &BootImage, o: PatchOptsModel) -> Result<Seq<u8>, PatchError> {
    match spec_head(img, o) {
        Err(e) => Err(e),
        Ok((s0, hoff)) => match spec_kernel_phase(img, o, s0, hoff) {
            Err(e) => Err(e),
            Ok((s1, k)) => match spec_ramdisk_phase(img, o, s1, hoff) {
                Err(e) => Err(e),
                Ok((s2, r)) => match spec_mid_phase(img, o, s2, hoff) {
                    Err(e) => Err(e),
                    Ok((s3, m)) => match spec_avb_phase(img, s3, hoff) {
                        Err(e) => Err(e),
                        Ok(s4) => {
                            let s5 = spec_fix_header(img, s4, hoff, k, r, m, spec_img_size(s3.pos, hoff));
                            if s5.overflow {
                                Err(PatchError::TooLarge)
                            } else {
                                Ok(s5.buf)
                            }
                        },
                    },
                },
            },
        },
    }
}

impl OutBuf {
    fn seek_off(&mut self, base: usize, off: usize)
        ensures
            final(self).st() == spec_seek(old(self).st(), base + off),
    {
        if self.overflow || base > usize::MAX - off {
            self.overflow = true;
            return;
        }
        self.pos = base + off;
    }

    fn align_rel(&mut self, base: usize, page: usize)
        requires
            page > 0,
        ensures
            final(self).st() == spec_align_rel(old(self).st(), base as int, page as int),
    {
        if self.overflow || self.pos < base || self.pos - base > usize::MAX - page {
            self.overflow = true;
            return;
        }
        let v = self.pos - base;
        let pad = crate::utils::align_padding(v, page);
        self.write_zeros(pad);
    }
}

/// The bytes that stand for a part; see `spec_block_bytes`.
fn block_bytes(
    no_compress: bool,
    repl: &Option<Vec<u8>>,
    orig: Option<&[u8]>,
    fmt: CompressFormat,
    Ghost(o): Ghost<PatchOptsModel>,
) -> (r: Result<Vec<u8>, PatchError>)
    requires
        o.no_compress == no_compress,
    ensures
        match r {
            Ok(v) => spec_block_bytes(o, opt_seq(*repl), crate::parser::opt_bytes(orig), fmt) == Ok::<
                Seq<u8>,
                PatchError,
            >(v@),
            Err(e) => spec_block_bytes(o, opt_seq(*repl), crate::parser::opt_bytes(orig), fmt)
                == Err::<Seq<u8>, PatchError>(e),
        },
{
    match repl {
        Some(d) => {
            if !no_compress && !is_compressed(parse_compress_format(d.as_slice())) && is_compressed(fmt) {
                if (fmt == CompressFormat::LZ4_LEGACY || fmt == CompressFormat::LZ4_LG) && d.len()
                    > u32::MAX as usize {
                    return Err(PatchError::TooLarge);
                }
                match get_encoder(fmt, d.as_slice()) {
                    Ok(v) => Ok(v),
                    Err(_) => Err(PatchError::Compress(CompressError::Failed)),
                }
            } else {
                Ok(slice_to_vec(d.as_slice()))
            }
        },
        None => match orig {
            Some(x) => Ok(slice_to_vec(x)),
            None => Ok(Vec::new()),
        },
    }
}

/// A part that is never compressed.
fn plain_bytes(repl: &Option<Vec<u8>>, orig: Option<&[u8]>) -> (r: Vec<u8>)
    ensures
        r@ == spec_plain(opt_seq(*repl), crate::parser::opt_bytes(orig)),
{
    match repl {
        Some(d) => slice_to_vec(d.as_slice()),
        None => match orig {
            Some(x) => slice_to_vec(x),
            None => Vec::new(),
        },
    }
}

/// A vendor ramdisk table entry.
struct VendorRamdiskTableEntryPatch;

impl VendorRamdiskTableEntryPatch {
    /// The 108 bytes of a table entry.
    fn serialize(offset: u32, size: u32, entry_type: u32, name: &[u8]) -> (r: Vec<u8>)
        ensures
            ({
                let nl = if name@.len() < 32 {
                    name@.len() as int
                } else {
                    32
                };
                r@ == spec_le32_bytes(size) + spec_le32_bytes(offset) + spec_le32_bytes(entry_type)
                    + name@.subrange(0, nl) + spec_zeros(96 - nl)
            }),
    {
        let mut b: Vec<u8> = Vec::new();
        let s1 = le32_bytes(size);
        append_slice(&mut b, s1.as_slice());
        let s2 = le32_bytes(offset);
        append_slice(&mut b, s2.as_slice());
        let s3 = le32_bytes(entry_type);
        append_slice(&mut b, s3.as_slice());
        let nl = if name.len() < 32 {
            name.len()
        } else {
            32
        };
        append_slice(&mut b, &name[0..nl]);
        let z = zeros(96 - nl);
        append_slice(&mut b, z.as_slice());
        assert(z@ =~= spec_zeros(96 - nl));
        b
    }
}

impl<'a> BootImagePatchOption<'a> {
    /// The header region; gives the offset of the header in the output.
    fn write_head(&self, out: &mut OutBuf) -> (r: Result<usize, PatchError>)
        requires
            spec_patch_source_ok(self.source()),
            old(out).st() == (OutState { buf: Seq::empty(), pos: 0, overflow: false }),
        ensures
            match spec_head(self.source(), self@) {
                Ok((st, h)) => r == Ok::<usize, PatchError>(h as usize) && final(out).st() == st
                    && 0 <= h <= usize::MAX,
                Err(e) => r == Err::<usize, PatchError>(e),
            },
    {
        proof {
            reveal(spec_head);
        }
        let img = self.source;
        let d = img.data;
        let dn = d.len();
        if img.is_dhtb {
            out.write(&d[0..512]);
        } else if img.is_blob {
            out.write(&d[0..80]);
        } else if img.is_nookhd {
            out.write(&d[img.payload_offset..img.payload_offset + NOOKHD_PRE_HEADER_SZ]);
        } else if img.is_acclaim {
            out.write(&d[img.payload_offset..img.payload_offset + ACCLAIM_PRE_HEADER_SZ]);
        } else {
            out.write(&d[0..0]);
        }
        let hoff = out.pos;
        let hb = img.header.header_bytes();
        let l = img.header.get_layout();
        let hs = img.header.hdr_space();
        proof {
            crate::utils::lemma_align_to(l.total_size as int, img.header.spec_page_size() as int);
        }
        let n = if hs < hb.len() {
            hs
        } else {
            hb.len()
        };
        out.write(&hb[0..n]);
        assert(hb@.subrange(0, n as int) =~= hb@);
        match &self.override_cmdline {
            Some(c) => {
                if c.len() > l.size_cmdline as usize {
                    return Err(PatchError::CmdlineTooLong);
                }
                out.seek_off(hoff, l.offset_cmdline as usize);
                out.write(c.as_slice());
                out.write_zeros(l.size_cmdline as usize - c.len());
            },
            None => {},
        }
        match self.override_os_version {
            Some((v, p)) => {
                if l.offset_os_version != 0 {
                    let field: u32 = ((((v & 0x7f) << 14u32) | (((v >> 8u32) & 0x7f) << 7u32)) << 11u32)
                        | ((p & 0x7f) << 4u32);
                    out.seek_off(hoff, l.offset_os_version as usize);
                    let fb = le32_bytes(field);
                    out.write(fb.as_slice());
                }
            },
            None => {},
        }
        out.seek_off(hoff, hs);
        Ok(hoff)
    }
}

impl<'a> BootImagePatchOption<'a> {
    /// The kernel and its DTB; gives the kernel size field.
    fn write_kernel(&self, out: &mut OutBuf, hoff: usize) -> (r: Result<u32, PatchError>)
        requires
            spec_patch_source_ok(self.source()),
        ensures
            match r {
                Ok(k) => spec_kernel_phase(self.source(), self@, old(out).st(), hoff as int) == Ok::<
                    (OutState, u32),
                    PatchError,
                >((final(out).st(), k)),
                Err(e) => spec_kernel_phase(self.source(), self@, old(out).st(), hoff as int)
                    == Err::<(OutState, u32), PatchError>(e),
            },
    {
        proof {
            reveal(spec_kernel_phase);
        }
        let img = self.source;
        let (korig, kfmt): (Option<&[u8]>, CompressFormat) = match &img.blocks.kernel {
            Some(k) => (Some(k.data), k.compress_format),
            None => (None, CompressFormat::UNKNOWN),
        };
        let kb = match block_bytes(self.no_compress, &self.replace_kernel, korig, kfmt, Ghost(self@)) {
            Ok(v) => v,
            Err(e) => return Err(e),
        };
        let kd = plain_bytes(&self.replace_kernel_dtb, img.blocks.kernel_dtb);
        let ks = #[verifier::truncate] (kb.len() as u32);
        let kds = #[verifier::truncate] (kd.len() as u32);
        if ks as u64 + kds as u64 > u32::MAX as u64 {
            return Err(PatchError::TooLarge);
        }
        out.write(kb.as_slice());
        out.write(kd.as_slice());
        let page = img.header.page_size_val() as usize;
        out.align_rel(hoff, page);
        Ok(ks + kds)
    }

    /// The ramdisk; gives the ramdisk size field.
    fn write_ramdisk(&self, out: &mut OutBuf, hoff: usize) -> (r: Result<u32, PatchError>)
        requires
            spec_patch_source_ok(self.source()),
        ensures
            match r {
                Ok(k) => spec_ramdisk_phase(self.source(), self@, old(out).st(), hoff as int) == Ok::<
                    (OutState, u32),
                    PatchError,
                >((final(out).st(), k)),
                Err(e) => spec_ramdisk_phase(self.source(), self@, old(out).st(), hoff as int)
                    == Err::<(OutState, u32), PatchError>(e),
            },
    {
        proof {
            reveal(spec_ramdisk_phase);
        }
        let img = self.source;
        let page = img.header.page_size_val() as usize;
        let ghost o = self@;
        let ghost s0 = out.st();
        match &img.blocks.ramdisk {
            Some(rd) => {
                match &rd.vendor_entries {
                    Some(ents) => {
                        let ghost ev = ents@.map_values(|e: RamdiskEntry<'a>| e@);
                        let start = out.pos;
                        let nrep = self.replace_vendor_ramdisk.len();
                        let mut k: usize = 0;
                        while k < nrep
                            invariant
                                nrep == o.replace_vendor_ramdisk.len(),
                                o == self@,
                                img == self.source(),
                                s0 == old(out).st(),
                                img.blocks@.ramdisk == Some(rd@),
                                rd@.vendor_entries == Some(ev),
                                ev == ents@.map_values(|e: RamdiskEntry<'a>| e@),
                                k <= nrep,
                                start == s0.pos,
                                start <= out.pos,
                                spec_vendor_repl(o, ev, s0, k as int) == Ok::<OutState, PatchError>(out.st()),
                            decreases nrep - k,
                        {
                            let idx = self.replace_vendor_ramdisk[k].0;
                            proof {
                                assert(o.replace_vendor_ramdisk[k as int] == (idx, self.replace_vendor_ramdisk@[k as int].1@));
                            }
                            if idx < ents.len() {
                                let fmt = ents[idx].compress_format;
                                let repl: Option<Vec<u8>> = Some(slice_to_vec(self.replace_vendor_ramdisk[k].1.as_slice()));
                                let bytes = match block_bytes(self.no_compress, &repl, None, fmt, Ghost(o)) {
                                    Ok(v) => v,
                                    Err(e) => {
                                        proof {
                                            reveal(spec_ramdisk_phase);
                                            assert(ev[idx as int] == ents@[idx as int]@);
                                            assert(img.blocks@.ramdisk->Some_0.vendor_entries->Some_0 == ev);
                                            if spec_vendor_repl(o, ev, s0, k as int + 1) is Err {
                                                lemma_vendor_repl_err(o, ev, s0, k as int + 1, nrep as int);
                                            }
                                        }
                                        return Err(e);
                                    },
                                };
                                out.write(bytes.as_slice());
                            }
                            k += 1;
                        }
                        let ne = ents.len();
                        let mut i: usize = 0;
                        let ghost s1 = out.st();
                        while i < ne
                            invariant
                                ne == ev.len(),
                                nrep == o.replace_vendor_ramdisk.len(),
                                o == self@,
                                ev == ents@.map_values(|e: RamdiskEntry<'a>| e@),
                                i <= ne,
                                start == s0.pos,
                                start <= out.pos,
                                spec_vendor_rest(o, ev, s1, i as int) == out.st(),
                            decreases ne - i,
                        {
                            let mut hit = false;
                            let mut q: usize = 0;
                            while q < nrep
                                invariant
                                    nrep == o.replace_vendor_ramdisk.len(),
                                    o == self@,
                                    q <= nrep,
                                    hit == exists|qq: int| 0 <= qq < q && #[trigger] o.replace_vendor_ramdisk[qq].0 == i,
                                decreases nrep - q,
                            {
                                if self.replace_vendor_ramdisk[q].0 == i {
                                    hit = true;
                                }
                                proof {
                                    assert(o.replace_vendor_ramdisk[q as int].0 == self.replace_vendor_ramdisk@[q as int].0);
                                }
                                q += 1;
                            }
                            if !hit {
                                out.write(ents[i].data);
                            }
                            i += 1;
                        }
                        let ghost s2 = out.st();
                        let sz = #[verifier::truncate] ((out.pos - start) as u32);
                        out.align_rel(hoff, page);
                        proof {
                            assert(spec_vendor_repl(o, ev, s0, nrep as int) == Ok::<OutState, PatchError>(s1));
                        }
                        Ok(sz)
                    },
                    None => {
                        let rb = match block_bytes(self.no_compress, &self.replace_ramdisk, Some(rd.data), rd.compress_format, Ghost(o)) {
                            Ok(v) => v,
                            Err(e) => return Err(e),
                        };
                        out.write(rb.as_slice());
                        out.align_rel(hoff, page);
                        Ok(#[verifier::truncate] (rb.len() as u32))
                    },
                }
            },
            None => {
                let rb = match block_bytes(self.no_compress, &self.replace_ramdisk, None, CompressFormat::UNKNOWN, Ghost(o)) {
                    Ok(v) => v,
                    Err(e) => return Err(e),
                };
                out.write(rb.as_slice());
                out.align_rel(hoff, page);
                Ok(#[verifier::truncate] (rb.len() as u32))
            },
        }
    }
}

/// Once a vendor ramdisk replacement fails, every longer run of them fails
/// with the same error.
proof fn lemma_vendor_repl_err(o: PatchOptsModel, ents: Seq<RamdiskEntryModel>, s0: OutState, k: int, n: int)
    requires
        0 < k <= n,
        spec_vendor_repl(o, ents, s0, k) is Err,
    ensures
        spec_vendor_repl(o, ents, s0, n) == spec_vendor_repl(o, ents, s0, k),
    decreases n - k,
{
    if k < n {
        lemma_vendor_repl_err(o, ents, s0, k + 1, n);
    }
}

/// Writes a vendor ramdisk table.
fn write_table(out: &mut OutBuf, ents: &Vec<RamdiskEntry>)
    ensures
        final(out).st() == spec_w(old(out).st(), spec_vendor_table(ents@.map_values(|e: RamdiskEntry| e@))),
{
    let ghost ev = ents@.map_values(|e: RamdiskEntry| e@);
    let mut t: Vec<u8> = Vec::new();
    let n = ents.len();
    let mut i: usize = 0;
    assert(ev.subrange(0, 0) =~= Seq::<RamdiskEntryModel>::empty());
    while i < n
        invariant
            n == ev.len(),
            ev == ents@.map_values(|e: RamdiskEntry| e@),
            i <= n,
            t@ == spec_vendor_table(ev.subrange(0, i as int)),
        decreases n - i,
    {
        let e = &ents[i];
        let b = VendorRamdiskTableEntryPatch::serialize(e.offset, e.size, e.entry_type.to_u32(), e.name);
        append_slice(&mut t, b.as_slice());
        proof {
            let sub = ev.subrange(0, i + 1);
            assert(sub.drop_last() =~= ev.subrange(0, i as int));
            assert(sub.last() == e@);
        }
        i += 1;
    }
    assert(ev.subrange(0, n as int) =~= ev);
    out.write(t.as_slice());
}

impl<'a> BootImagePatchOption<'a> {
    /// The parts after the ramdisk; gives their sizes.
    fn write_mid(&self, out: &mut OutBuf, hoff: usize) -> (r: Result<MidSizes, PatchError>)
        requires
            spec_patch_source_ok(self.source()),
        ensures
            match spec_mid_phase(self.source(), self@, old(out).st(), hoff as int) {
                Ok((st, m)) => r == Ok::<MidSizes, PatchError>(m) && final(out).st() == st,
                Err(e) => r == Err::<MidSizes, PatchError>(e),
            },
    {
        proof {
            reveal(spec_mid_phase);
        }
        let img = self.source;
        let b = &img.blocks;
        let page = img.header.page_size_val() as usize;
        let sb = plain_bytes(&self.replace_second, b.second);
        out.write(sb.as_slice());
        out.align_rel(hoff, page);
        let eb = plain_bytes(&self.replace_extra, b.extra);
        out.write(eb.as_slice());
        out.align_rel(hoff, page);
        let rdo: u64 = if out.pos >= hoff {
            (out.pos - hoff) as u64
        } else {
            0
        };
        let rb = plain_bytes(&self.replace_recovery_dtbo, b.recovery_dtbo);
        out.write(rb.as_slice());
        out.align_rel(hoff, page);
        let db = plain_bytes(&self.replace_dtb, b.dtb);
        out.write(db.as_slice());
        out.align_rel(hoff, page);
        match b.signature {
            Some(sig) => {
                out.write(sig);
                out.align_rel(hoff, page);
            },
            None => {},
        }
        let mut tsz: u64 = 0;
        match &b.ramdisk {
            Some(rd) => match &rd.vendor_entries {
                Some(ents) => {
                    write_table(out, ents);
                    out.align_rel(hoff, page);
                    tsz = (#[verifier::truncate] (ents.len() as u32)) as u64 * 108;
                },
                None => {},
            },
            None => {},
        }
        if tsz > u32::MAX as u64 {
            return Err(PatchError::TooLarge);
        }
        let bb = plain_bytes(&self.replace_bootconfig, b.bootconfig);
        out.write(bb.as_slice());
        out.align_rel(hoff, page);
        Ok(
            MidSizes {
                second: #[verifier::truncate] (sb.len() as u32),
                extra: #[verifier::truncate] (eb.len() as u32),
                recovery_dtbo: #[verifier::truncate] (rb.len() as u32),
                recovery_dtbo_off: rdo,
                dtb: #[verifier::truncate] (db.len() as u32),
                table: tsz as u32,
                bootconfig: #[verifier::truncate] (bb.len() as u32),
            },
        )
    }
}

impl<'a> BootImagePatchOption<'a> {
    /// The AVB data, or zeros up to the size of the source.
    fn write_avb(&self, out: &mut OutBuf, hoff: usize) -> (r: Result<(), PatchError>)
        requires
            spec_patch_source_ok(self.source()),
        ensures
            match spec_avb_phase(self.source(), old(out).st(), hoff as int) {
                Ok(st) => r is Ok && final(out).st() == st,
                Err(e) => r == Err::<(), PatchError>(e),
            },
    {
        proof {
            reveal(spec_avb_phase);
        }
        let img = self.source;
        let d = img.data;
        let dl = d.len();
        let payload_end = out.pos;
        match &img.avb_info {
            Some(a) => {
                if out.overflow || out.pos > usize::MAX - 4096 {
                    out.overflow = true;
                } else {
                    let pad = crate::utils::align_padding(out.pos, 4096);
                    out.write_zeros(pad);
                }
                let vb = out.pos;
                out.write(a.header_data);
                let footer_pos = out.pos;
                if dl < AVB_FOOTER_SIZE {
                    return Err(PatchError::AvbFooterOutOfRange);
                }
                let foot_at = dl - AVB_FOOTER_SIZE;
                let beyond = footer_pos > usize::MAX - AVB_FOOTER_SIZE || footer_pos + AVB_FOOTER_SIZE > dl;
                if beyond && payload_end > foot_at {
                    return Err(PatchError::AvbFooterOutOfRange);
                }
                if beyond {
                    out.write(&d[payload_end..foot_at]);
                }
                out.seek_off(foot_at, 0);
                let mut footer = slice_to_vec(a.footer_data);
                let vbb = be64_bytes(vb as u64);
                splice_into(&mut footer, AVB_OFFSET_VBMETA_OFFSET, vbb.as_slice());
                let size: u64 = if payload_end >= hoff {
                    (payload_end - hoff) as u64
                } else {
                    0
                };
                let szb = be64_bytes(size);
                splice_into(&mut footer, AVB_OFFSET_ORIGINAL_IMAGE_SIZE, szb.as_slice());
                out.write(footer.as_slice());
                Ok(())
            },
            None => {
                if out.pos < dl {
                    out.write_zeros(dl - out.pos);
                }
                Ok(())
            },
        }
    }

    /// Sets the size fields.
    fn fix_sizes(&self, out: &mut OutBuf, hoff: usize, k: u32, r: u32, m: MidSizes)
        ensures
            final(out).st() == spec_fix_sizes(self.source(), old(out).st(), hoff as int, k, r, m),
    {
        proof {
            reveal(spec_fix_sizes);
        }
        let img = self.source;
        let l = img.header.get_layout();
        write_field32(out, hoff, l.offset_kernel_size, k);
        if l.offset_ramdisk_size != 0 {
            write_field32(out, hoff, l.offset_ramdisk_size, r);
        }
        if l.offset_second_size != 0 {
            write_field32(out, hoff, l.offset_second_size, m.second);
        }
        if l.offset_extra_size != 0 {
            write_field32(out, hoff, l.offset_extra_size, m.extra);
        }
        if l.offset_recovery_dtbo_size != 0 {
            write_field32(out, hoff, l.offset_recovery_dtbo_size, m.recovery_dtbo);
            out.seek_off(hoff, l.offset_recovery_dtbo_offset as usize);
            let ob = le64_bytes(m.recovery_dtbo_off);
            out.write(ob.as_slice());
        }
        if l.offset_dtb_size != 0 {
            write_field32(out, hoff, l.offset_dtb_size, m.dtb);
        }
        if l.offset_header_size != 0 {
            write_field32(out, hoff, l.offset_header_size, l.total_size);
        }
        if l.offset_vendor_ramdisk_table_size != 0 && m.table > 0 {
            write_field32(out, hoff, l.offset_vendor_ramdisk_table_size, m.table);
        }
        if l.offset_bootconfig_size != 0 {
            write_field32(out, hoff, l.offset_bootconfig_size, m.bootconfig);
        }
    }

    /// Sets the size fields, the id and the wrapper size.
    fn fix_header(&self, out: &mut OutBuf, hoff: usize, k: u32, r: u32, m: MidSizes, img_size: u64)
        requires
            spec_patch_source_ok(self.source()),
        ensures
            final(out).st() == spec_fix_header(self.source(), old(out).st(), hoff as int, k, r, m, img_size as int),
    {
        proof {
            reveal(spec_fix_header);
        }
        let img = self.source;
        let l = img.header.get_layout();
        self.fix_sizes(out, hoff, k, r, m);
        if l.offset_id != 0 {
            let empty: Vec<u8> = Vec::new();
            let dtb_data: Option<&[u8]> = if m.dtb > 0 {
                Some(empty.as_slice())
            } else {
                None
            };
            let id = compute_id(
                empty.as_slice(),
                k,
                empty.as_slice(),
                r,
                empty.as_slice(),
                m.second,
                empty.as_slice(),
                m.extra,
                None,
                m.recovery_dtbo,
                dtb_data,
                m.dtb,
                !img.sha256_id,
            );
            let padded = pad_id(id);
            out.seek_off(hoff, l.offset_id as usize);
            out.write(padded.as_slice());
        }
        if img.is_dhtb {
            out.seek_off(48, 0);
            let low: u64 = img_size & 0xffff_ffff;
            assert(low <= 0xffff_ffff) by (bit_vector)
                requires
                    low == img_size & 0xffff_ffff,
            ;
            let sum: u64 = low + 20;
            let v: u32 = (sum & 0xffff_ffff) as u32;
            assert(v == ((img_size + 20) as u32)) by (bit_vector)
                requires
                    low == img_size & 0xffff_ffff,
                    sum == low + 20,
                    v == (sum & 0xffff_ffff) as u32,
            ;
            let b = le32_bytes(v);
            out.write(b.as_slice());
        } else if img.is_blob {
            out.seek_off(72, 0);
            let b = le32_bytes(#[verifier::truncate] (img_size as u32));
            out.write(b.as_slice());
        }
    }

    /// Writes the repacked image: the header with the new sizes and id, the
    /// parts with their replacements, each padded to a page, and the AVB data
    /// or zeros up to the size of the source.
    pub fn patch(self) -> (r: Result<Vec<u8>, PatchError>)
        requires
            spec_patch_source_ok(self.source()),
        ensures
            match spec_patch(self.source(), self@) {
                Ok(v) => r matches Ok(o) && o@ == v,
                Err(e) => r == Err::<Vec<u8>, PatchError>(e),
            },
    {
        let ghost img = self.source();
        let ghost o = self@;
        let mut out = OutBuf::new();
        let hoff = match self.write_head(&mut out) {
            Ok(h) => h,
            Err(e) => return Err(e),
        };
        let ghost s0 = out.st();
        assert(spec_head(img, o) == Ok::<(OutState, int), PatchError>((s0, hoff as int)));
        let k = match self.write_kernel(&mut out, hoff) {
            Ok(k) => k,
            Err(e) => return Err(e),
        };
        let ghost s1 = out.st();
        assert(spec_kernel_phase(img, o, s0, hoff as int) == Ok::<(OutState, u32), PatchError>((s1, k)));
        let r = match self.write_ramdisk(&mut out, hoff) {
            Ok(r) => r,
            Err(e) => return Err(e),
        };
        let ghost s2 = out.st();
        assert(spec_ramdisk_phase(img, o, s1, hoff as int) == Ok::<(OutState, u32), PatchError>((s2, r)));
        let m = match self.write_mid(&mut out, hoff) {
            Ok(m) => m,
            Err(e) => return Err(e),
        };
        let ghost s3 = out.st();
        assert(spec_mid_phase(img, o, s2, hoff as int) == Ok::<(OutState, MidSizes), PatchError>((s3, m)));
        let payload_end = out.pos;
        let img_size: u64 = if payload_end >= hoff {
            (payload_end - hoff) as u64
        } else {
            0
        };
        assert(img_size as int == spec_img_size(s3.pos, hoff as int));
        match self.write_avb(&mut out, hoff) {
            Ok(()) => {},
            Err(e) => return Err(e),
        }
        let ghost s4 = out.st();
        assert(spec_avb_phase(img, s3, hoff as int) == Ok::<OutState, PatchError>(s4));
        self.fix_header(&mut out, hoff, k, r, m, img_size);
        if out.overflow {
            return Err(PatchError::TooLarge);
        }
        Ok(out.buf)
    }
}

/// Writes `v` at `off` bytes into the header.
fn write_field32(out: &mut OutBuf, hoff: usize, off: u32, v: u32)
    ensures
        final(out).st() == spec_field32(old(out).st(), hoff as int, off, v),
{
    out.seek_off(hoff, off as usize);
    let b = le32_bytes(v);
    out.write(b.as_slice());
}

/// `d` cut or padded with zeros to the length of the id field.
fn pad_id(d: Vec<u8>) -> (r: Vec<u8>)
    ensures
        r@ == spec_pad_id(d@),
{
    if d.len() >= BOOT_ID_SIZE {
        slice_to_vec(&d.as_slice()[0..BOOT_ID_SIZE])
    } else {
        let mut v = d;
        let z = zeros(BOOT_ID_SIZE - v.len());
        let ghost before = v@;
        append_slice(&mut v, z.as_slice());
        assert(z@ =~= spec_zeros(BOOT_ID_SIZE - before.len()));
        v
    }
}

impl<'a> BootImagePatchOption<'a> {
    /// Whether the parts of the source that a repack copies are there, so
    /// that `patch` can be called.
    pub fn can_patch(&self) -> (r: bool)
        ensures
            r == spec_patch_source_ok(self.source()),
    {
        let img = self.source;
        let d = img.data;
        let dn = d.len();
        let l = img.header.get_layout();
        let page = img.header.page_size_val();
        if page == 0 || l.total_size as usize > usize::MAX - page as usize {
            return false;
        }
        if img.is_dhtb && dn < 512 {
            return false;
        }
        if !img.is_dhtb && img.is_blob && dn < 80 {
            return false;
        }
        if !img.is_dhtb && !img.is_blob && img.is_nookhd && (img.payload_offset > dn || dn - img.payload_offset
            < NOOKHD_PRE_HEADER_SZ) {
            return false;
        }
        if !img.is_dhtb && !img.is_blob && !img.is_nookhd && img.is_acclaim && (img.payload_offset > dn || dn
            - img.payload_offset < ACCLAIM_PRE_HEADER_SZ) {
            return false;
        }
        match &img.avb_info {
            Some(a) => a.footer_data.len() >= 28,
            None => true,
        }
    }
}

/// `t` follows from `s` by writes and seeks: unless a position ran past
/// `usize`, `s` had not either and the output only grew.
pub open spec fn spec_grows(s: OutState, t: OutState) -> bool {
    !t.overflow ==> (!s.overflow && t.buf.len() >= s.buf.len())
}

proof fn lemma_w_grows(s: OutState, b: Seq<u8>)
    requires
        s.pos >= 0,
    ensures
        spec_grows(s, spec_w(s, b)),
        !spec_w(s, b).overflow ==> spec_w(s, b).buf.len() >= spec_w(s, b).pos,
        !spec_w(s, b).overflow ==> spec_w(s, b).pos >= 0,
{
}

proof fn lemma_seek_grows(s: OutState, p: int)
    ensures
        spec_grows(s, spec_seek(s, p)),
{
}

proof fn lemma_grows_trans(a: OutState, b: OutState, c: OutState)
    requires
        spec_grows(a, b),
        spec_grows(b, c),
    ensures
        spec_grows(a, c),
{
}

proof fn lemma_field32_grows(s: OutState, hoff: int, off: u32, v: u32)
    requires
        hoff >= 0,
    ensures
        spec_grows(s, spec_field32(s, hoff, off, v)),
{
    let t = spec_seek(s, hoff + off);
    lemma_seek_grows(s, hoff + off);
    if !t.overflow {
        lemma_w_grows(t, spec_le32_bytes(v));
    }
}

proof fn lemma_fix_sizes_grows(img: &BootImage, s: OutState, hoff: int, k: u32, r: u32, m: MidSizes)
    requires
        hoff >= 0,
    ensures
        spec_grows(s, spec_fix_sizes(img, s, hoff, k, r, m)),
{
    reveal(spec_fix_sizes);
    let l = img.header.spec_layout();
    let s1 = spec_field32(s, hoff, l.offset_kernel_size, k);
    lemma_field32_grows(s, hoff, l.offset_kernel_size, k);
    let s2 = if l.offset_ramdisk_size != 0 {
        spec_field32(s1, hoff, l.offset_ramdisk_size, r)
    } else {
        s1
    };
    lemma_field32_grows(s1, hoff, l.offset_ramdisk_size, r);
    lemma_grows_trans(s, s1, s2);
    let s3 = if l.offset_second_size != 0 {
        spec_field32(s2, hoff, l.offset_second_size, m.second)
    } else {
        s2
    };
    lemma_field32_grows(s2, hoff, l.offset_second_size, m.second);
    lemma_grows_trans(s, s2, s3);
    let s4 = if l.offset_extra_size != 0 {
        spec_field32(s3, hoff, l.offset_extra_size, m.extra)
    } else {
        s3
    };
    lemma_field32_grows(s3, hoff, l.offset_extra_size, m.extra);
    lemma_grows_trans(s, s3, s4);
    let a4 = spec_field32(s4, hoff, l.offset_recovery_dtbo_size, m.recovery_dtbo);
    lemma_field32_grows(s4, hoff, l.offset_recovery_dtbo_size, m.recovery_dtbo);
    let b4 = spec_seek(a4, hoff + l.offset_recovery_dtbo_offset);
    lemma_seek_grows(a4, hoff + l.offset_recovery_dtbo_offset);
    if !b4.overflow {
        lemma_w_grows(b4, spec_le64_bytes(m.recovery_dtbo_off));
    }
    let s5 = if l.offset_recovery_dtbo_size != 0 {
        spec_w(b4, spec_le64_bytes(m.recovery_dtbo_off))
    } else {
        s4
    };
    lemma_grows_trans(s4, a4, b4);
    if l.offset_recovery_dtbo_size != 0 {
        lemma_grows_trans(s4, b4, s5);
    }
    lemma_grows_trans(s, s4, s5);
    let s6 = if l.offset_dtb_size != 0 {
        spec_field32(s5, hoff, l.offset_dtb_size, m.dtb)
    } else {
        s5
    };
    lemma_field32_grows(s5, hoff, l.offset_dtb_size, m.dtb);
    lemma_grows_trans(s, s5, s6);
    let s7 = if l.offset_header_size != 0 {
        spec_field32(s6, hoff, l.offset_header_size, l.total_size)
    } else {
        s6
    };
    lemma_field32_grows(s6, hoff, l.offset_header_size, l.total_size);
    lemma_grows_trans(s, s6, s7);
    let s8 = if l.offset_vendor_ramdisk_table_size != 0 && m.table > 0 {
        spec_field32(s7, hoff, l.offset_vendor_ramdisk_table_size, m.table)
    } else {
        s7
    };
    lemma_field32_grows(s7, hoff, l.offset_vendor_ramdisk_table_size, m.table);
    lemma_grows_trans(s, s7, s8);
    let s9 = if l.offset_bootconfig_size != 0 {
        spec_field32(s8, hoff, l.offset_bootconfig_size, m.bootconfig)
    } else {
        s8
    };
    lemma_field32_grows(s8, hoff, l.offset_bootconfig_size, m.bootconfig);
    lemma_grows_trans(s, s8, s9);
}

proof fn lemma_fix_header_grows(img: &BootImage, s: OutState, hoff: int, k: u32, r: u32, m: MidSizes, size: int)
    requires
        hoff >= 0,
    ensures
        spec_grows(s, spec_fix_header(img, s, hoff, k, r, m, size)),
{
    reveal(spec_fix_header);
    let l = img.header.spec_layout();
    let s9 = spec_fix_sizes(img, s, hoff, k, r, m);
    lemma_fix_sizes_grows(img, s, hoff, k, r, m);
    let a = spec_seek(s9, hoff + l.offset_id);
    lemma_seek_grows(s9, hoff + l.offset_id);
    if !a.overflow {
        lemma_w_grows(a, spec_new_id(img.sha256_id, k, r, m));
    }
    let s10 = if l.offset_id != 0 {
        spec_w(a, spec_new_id(img.sha256_id, k, r, m))
    } else {
        s9
    };
    if l.offset_id != 0 {
        lemma_grows_trans(s9, a, s10);
    }
    lemma_grows_trans(s, s9, s10);
    let d = spec_seek(s10, 48);
    lemma_seek_grows(s10, 48);
    if !d.overflow {
        lemma_w_grows(d, spec_le32_bytes((size + 20) as u32));
    }
    let b = spec_seek(s10, 72);
    lemma_seek_grows(s10, 72);
    if !b.overflow {
        lemma_w_grows(b, spec_le32_bytes(size as u32));
    }
    let t = spec_fix_header(img, s, hoff, k, r, m, size);
    if img.is_dhtb {
        lemma_grows_trans(s10, d, t);
    } else if img.is_blob {
        lemma_grows_trans(s10, b, t);
    }
    lemma_grows_trans(s, s10, t);
}

proof fn lemma_align_rel_covers(s: OutState, base: int, page: int)
    requires
        page > 0,
        base >= 0,
    ensures
        !spec_align_rel(s, base, page).overflow ==> spec_align_rel(s, base, page).buf.len() >= spec_align_rel(
            s,
            base,
            page,
        ).pos,
        !spec_align_rel(s, base, page).overflow ==> spec_align_rel(s, base, page).pos >= base,
{
    if !(s.overflow || s.pos < base || s.pos - base + page > usize::MAX) {
        let v = s.pos - base;
        lemma_w_grows(s, spec_zeros(spec_align_to(v, page) - v));
    }
}

/// After the parts, the output reaches the write position.
proof fn lemma_mid_covers(img: &BootImage, o: PatchOptsModel, s: OutState, hoff: int)
    requires
        hoff >= 0,
        img.header.spec_page_size() > 0,
    ensures
        spec_mid_phase(img, o, s, hoff) matches Ok((t, _)) ==> (!t.overflow ==> t.buf.len() >= t.pos
            && t.pos >= 0),
{
    reveal(spec_mid_phase);
    let b = img.blocks@;
    let page = img.header.spec_page_size() as int;
    let sb = spec_plain(o.replace_second, b.second);
    let eb = spec_plain(o.replace_extra, b.extra);
    let rb = spec_plain(o.replace_recovery_dtbo, b.recovery_dtbo);
    let db = spec_plain(o.replace_dtb, b.dtb);
    let bb = spec_plain(o.replace_bootconfig, b.bootconfig);
    let s1 = spec_align_rel(spec_w(s, sb), hoff, page);
    let s2 = spec_align_rel(spec_w(s1, eb), hoff, page);
    let s3 = spec_align_rel(spec_w(s2, rb), hoff, page);
    let s4 = spec_align_rel(spec_w(s3, db), hoff, page);
    let s5 = match b.signature {
        Some(sig) => spec_align_rel(spec_w(s4, sig), hoff, page),
        None => s4,
    };
    let s6 = match spec_source_table(b) {
        Some(ents) => spec_align_rel(spec_w(s5, spec_vendor_table(ents)), hoff, page),
        None => s5,
    };
    lemma_align_rel_covers(spec_w(s6, bb), hoff, page);
}

/// A repack is at least as long as the source image: without AVB data the
/// output is padded with zeros to the source size, with it the footer is
/// written where the source had it.
pub proof fn law_patch_keeps_size(img: &BootImage, o: PatchOptsModel)
    requires
        spec_patch_source_ok(img),
        img.avb_info matches Some(a) ==> a.footer_data@.len() >= AVB_FOOTER_SIZE,
    ensures
        spec_patch(img, o) matches Ok(out) ==> out.len() >= img.data@.len(),
{
    if let Ok((s0, hoff)) = spec_head(img, o) {
        reveal(spec_head);
        if let Ok((s1, k)) = spec_kernel_phase(img, o, s0, hoff) {
            if let Ok((s2, r)) = spec_ramdisk_phase(img, o, s1, hoff) {
                if let Ok((s3, m)) = spec_mid_phase(img, o, s2, hoff) {
                    lemma_mid_covers(img, o, s2, hoff);
                    if let Ok(s4) = spec_avb_phase(img, s3, hoff) {
                        reveal(spec_avb_phase);
                        let dl = img.data@.len() as int;
                        if !s4.overflow {
                            match opt_avb(img.avb_info) {
                                Some(a) => {
                                    let vb_state = if s3.overflow || s3.pos + 4096 > usize::MAX {
                                        OutState { buf: s3.buf, pos: s3.pos, overflow: true }
                                    } else {
                                        spec_w(s3, spec_zeros(spec_align_to(s3.pos, 4096) - s3.pos))
                                    };
                                    let s2v = spec_w(vb_state, a.header_data);
                                    let foot = spec_new_footer(
                                        a.footer_data,
                                        vb_state.pos,
                                        spec_img_size(s3.pos, hoff),
                                    );
                                    assert(foot.len() == a.footer_data.len());
                                    let at = if s2v.pos + AVB_FOOTER_SIZE > dl {
                                        spec_seek(
                                            spec_w(s2v, img.data@.subrange(s3.pos, dl - AVB_FOOTER_SIZE)),
                                            dl - AVB_FOOTER_SIZE,
                                        )
                                    } else {
                                        spec_seek(s2v, dl - AVB_FOOTER_SIZE)
                                    };
                                    assert(s4 == spec_w(at, foot));
                                    if !at.overflow {
                                        lemma_w_grows(at, foot);
                                    }
                                    assert(s4.buf.len() >= dl);
                                },
                                None => {
                                    if s3.pos < dl {
                                        lemma_w_grows(s3, spec_zeros(dl - s3.pos));
                                    }
                                    assert(s4.buf.len() >= dl);
                                },
                            }
                        }
                        lemma_fix_header_grows(img, s4, hoff, k, r, m, spec_img_size(s3.pos, hoff));
                    }
                }
            }
        }
    }
}


/// `t` follows from `s` without touching the bytes of `s` in `[a, b)`: unless
/// a position ran past `usize`, `s` had not either, the output only grew,
/// and those bytes are as they were.
pub open spec fn spec_keeps(s: OutState, t: OutState, a: int, b: int) -> bool {
    !t.overflow ==> (!s.overflow && t.buf.len() >= s.buf.len() && (0 <= a <= b <= s.buf.len()
        ==> t.buf.subrange(a, b) == s.buf.subrange(a, b)))
}

/// `t` follows from `s` and the write position only moved on.
pub open spec fn spec_fwd(s: OutState, t: OutState) -> bool {
    !t.overflow ==> (!s.overflow && t.pos >= s.pos && t.buf.len() >= s.buf.len())
}

proof fn lemma_keeps_trans(x: OutState, y: OutState, z: OutState, a: int, b: int)
    requires
        spec_keeps(x, y, a, b),
        spec_keeps(y, z, a, b),
    ensures
        spec_keeps(x, z, a, b),
{
}

proof fn lemma_fwd_trans(x: OutState, y: OutState, z: OutState)
    requires
        spec_fwd(x, y),
        spec_fwd(y, z),
    ensures
        spec_fwd(x, z),
{
}

/// A write away from `[a, b)` keeps those bytes; it moves the position past
/// what it wrote, which then stands there.
proof fn lemma_w_keeps(s: OutState, bytes: Seq<u8>, a: int, b: int)
    requires
        s.pos >= 0,
        s.pos >= b || s.pos + bytes.len() <= a,
    ensures
        spec_keeps(s, spec_w(s, bytes), a, b),
{
    lemma_w_grows(s, bytes);
    let t = spec_w(s, bytes);
    if !t.overflow && 0 <= a <= b <= s.buf.len() {
        let buf = s.buf;
        let pos = s.pos;
        let ext = if pos > buf.len() {
            buf + spec_zeros(pos - buf.len())
        } else {
            buf
        };
        let end = pos + bytes.len();
        assert forall|i: int| a <= i < b implies #[trigger] t.buf[i] == buf[i] by {
            if pos >= b {
                assert(t.buf[i] == ext.subrange(0, pos)[i]);
            } else {
                assert(end < ext.len());
                assert(t.buf[i] == ext.subrange(end, ext.len() as int)[i - end]);
            }
        }
        assert(t.buf.subrange(a, b) =~= buf.subrange(a, b));
    }
}

proof fn lemma_w_fwd(s: OutState, bytes: Seq<u8>)
    requires
        s.pos >= 0,
    ensures
        spec_fwd(s, spec_w(s, bytes)),
        !spec_w(s, bytes).overflow ==> spec_w(s, bytes).pos == s.pos + bytes.len() && spec_w(
            s,
            bytes,
        ).buf.subrange(s.pos, s.pos + bytes.len()) == bytes,
{
    lemma_w_grows(s, bytes);
    let t = spec_w(s, bytes);
    if !t.overflow {
        let buf = s.buf;
        let pos = s.pos;
        let ext = if pos > buf.len() {
            buf + spec_zeros(pos - buf.len())
        } else {
            buf
        };
        assert(ext.len() >= pos);
        assert(t.buf.subrange(pos, pos + bytes.len()) =~= bytes);
    }
}

proof fn lemma_align_rel_fwd(s: OutState, base: int, page: int, a: int, b: int)
    requires
        s.pos >= b,
        s.pos >= 0,
        page > 0,
    ensures
        spec_fwd(s, spec_align_rel(s, base, page)),
        spec_keeps(s, spec_align_rel(s, base, page), a, b),
        !spec_align_rel(s, base, page).overflow ==> (spec_align_rel(s, base, page).pos - base) % page == 0,
{
    if !(s.overflow || s.pos < base || s.pos - base + page > usize::MAX) {
        let v = s.pos - base;
        crate::utils::lemma_align_to(v, page);
        lemma_w_fwd(s, spec_zeros(spec_align_to(v, page) - v));
        lemma_w_keeps(s, spec_zeros(spec_align_to(v, page) - v), a, b);
    }
}

/// A write at or past `b`, then an alignment: the bytes before `b` stay.
proof fn lemma_w_align_fwd(s: OutState, bytes: Seq<u8>, base: int, page: int, a: int, b: int)
    requires
        s.pos >= b,
        s.pos >= 0,
        page > 0,
    ensures
        spec_fwd(s, spec_align_rel(spec_w(s, bytes), base, page)),
        spec_keeps(s, spec_align_rel(spec_w(s, bytes), base, page), a, b),
        !spec_align_rel(spec_w(s, bytes), base, page).overflow ==> (spec_align_rel(spec_w(s, bytes), base, page).pos
            - base) % page == 0,
{
    let t = spec_w(s, bytes);
    lemma_w_fwd(s, bytes);
    lemma_w_keeps(s, bytes, a, b);
    lemma_align_rel_fwd(t, base, page, a, b);
    lemma_fwd_trans(s, t, spec_align_rel(t, base, page));
    lemma_keeps_trans(s, t, spec_align_rel(t, base, page), a, b);
}


proof fn lemma_vendor_repl_fwd(o: PatchOptsModel, ents: Seq<RamdiskEntryModel>, s0: OutState, k: int, a: int, b: int)
    requires
        s0.pos >= 0,
        s0.pos >= b,
    ensures
        spec_vendor_repl(o, ents, s0, k) matches Ok(t) ==> spec_fwd(s0, t) && spec_keeps(s0, t, a, b),
    decreases k,
{
    if k > 0 {
        lemma_vendor_repl_fwd(o, ents, s0, k - 1, a, b);
        if let Ok(s) = spec_vendor_repl(o, ents, s0, k - 1) {
            let (idx, data) = o.replace_vendor_ramdisk[k - 1];
            if idx < ents.len() {
                if let Ok(bytes) = spec_block_bytes(o, Some(data), None, ents[idx as int].compress_format) {
                    if !s.overflow {
                        lemma_w_fwd(s, bytes);
                        lemma_w_keeps(s, bytes, a, b);
                    }
                    lemma_fwd_trans(s0, s, spec_w(s, bytes));
                    lemma_keeps_trans(s0, s, spec_w(s, bytes), a, b);
                }
            }
        }
    }
}

proof fn lemma_vendor_rest_fwd(o: PatchOptsModel, ents: Seq<RamdiskEntryModel>, s0: OutState, i: int, a: int, b: int)
    requires
        s0.pos >= 0,
        s0.pos >= b,
    ensures
        spec_fwd(s0, spec_vendor_rest(o, ents, s0, i)),
        spec_keeps(s0, spec_vendor_rest(o, ents, s0, i), a, b),
    decreases i,
{
    if i > 0 {
        lemma_vendor_rest_fwd(o, ents, s0, i - 1, a, b);
        let s = spec_vendor_rest(o, ents, s0, i - 1);
        if !spec_replaced(o, i - 1) {
            if !s.overflow {
                lemma_w_fwd(s, ents[i - 1].data);
                lemma_w_keeps(s, ents[i - 1].data, a, b);
            }
            lemma_fwd_trans(s0, s, spec_w(s, ents[i - 1].data));
            lemma_keeps_trans(s0, s, spec_w(s, ents[i - 1].data), a, b);
        }
    }
}

proof fn lemma_vendor_rest_overflow(o: PatchOptsModel, ents: Seq<RamdiskEntryModel>, s0: OutState, i: int)
    requires
        s0.overflow,
    ensures
        spec_vendor_rest(o, ents, s0, i).overflow,
    decreases i,
{
    if i > 0 {
        lemma_vendor_rest_overflow(o, ents, s0, i - 1);
    }
}

/// The kernel and ramdisk parts are written from the position on: what
/// lies before it stays.
proof fn lemma_kernel_ramdisk_fwd(img: &BootImage, o: PatchOptsModel, s: OutState, hoff: int, a: int, b: int)
    requires
        s.pos >= 0,
        s.pos >= b,
        img.header.spec_page_size() > 0,
    ensures
        spec_kernel_phase(img, o, s, hoff) matches Ok((t, _)) ==> spec_fwd(s, t) && spec_keeps(s, t, a, b),
        spec_ramdisk_phase(img, o, s, hoff) matches Ok((t, _)) ==> spec_fwd(s, t) && spec_keeps(s, t, a, b),
{
    reveal(spec_kernel_phase);
    reveal(spec_ramdisk_phase);
    let page = img.header.spec_page_size() as int;
    let b0 = img.blocks@;
    let kfmt = match b0.kernel {
        Some(k) => k.compress_format,
        None => CompressFormat::UNKNOWN,
    };
    let korig = match b0.kernel {
        Some(k) => Some(k.data),
        None => None,
    };
    if let Ok(kb) = spec_block_bytes(o, o.replace_kernel, korig, kfmt) {
        let kd = spec_plain(o.replace_kernel_dtb, b0.kernel_dtb);
        let w1 = spec_w(s, kb);
        lemma_w_fwd(s, kb);
        lemma_w_keeps(s, kb, a, b);
        if !w1.overflow {
            lemma_w_align_fwd(w1, kd, hoff, page, a, b);
        }
        lemma_fwd_trans(s, w1, spec_align_rel(spec_w(w1, kd), hoff, page));
        lemma_keeps_trans(s, w1, spec_align_rel(spec_w(w1, kd), hoff, page), a, b);
    }
    let (orig, fmt) = match b0.ramdisk {
        Some(r) => (Some(r.data), r.compress_format),
        None => (None, CompressFormat::UNKNOWN),
    };
    if b0.ramdisk matches Some(r) && r.vendor_entries is Some {
        let ents = b0.ramdisk->Some_0.vendor_entries->Some_0;
        lemma_vendor_repl_fwd(o, ents, s, o.replace_vendor_ramdisk.len() as int, a, b);
        if let Ok(s1) = spec_vendor_repl(o, ents, s, o.replace_vendor_ramdisk.len() as int) {
            if !s1.overflow {
                lemma_vendor_rest_fwd(o, ents, s1, ents.len() as int, a, b);
                let s2 = spec_vendor_rest(o, ents, s1, ents.len() as int);
                if !s2.overflow {
                    lemma_align_rel_fwd(s2, hoff, page, a, b);
                }
                lemma_fwd_trans(s1, s2, spec_align_rel(s2, hoff, page));
                lemma_keeps_trans(s1, s2, spec_align_rel(s2, hoff, page), a, b);
            } else {
                lemma_vendor_rest_overflow(o, ents, s1, ents.len() as int);
            }
            lemma_fwd_trans(s, s1, spec_align_rel(spec_vendor_rest(o, ents, s1, ents.len() as int), hoff, page));
            lemma_keeps_trans(s, s1, spec_align_rel(spec_vendor_rest(o, ents, s1, ents.len() as int), hoff, page), a, b);
        }
    } else {
        if let Ok(rb) = spec_block_bytes(o, o.replace_ramdisk, orig, fmt) {
            lemma_w_align_fwd(s, rb, hoff, page, a, b);
        }
    }
}


/// Where the mid parts put the DTB: past the start, at a page boundary from
/// `hoff`, before the end; and the DTB size they report.
#[verifier::rlimit(60)]
#[verifier::spinoff_prover]
proof fn lemma_mid_dtb(img: &BootImage, o: PatchOptsModel, s: OutState, hoff: int) -> (p: int)
    requires
        s.pos >= 0,
        img.header.spec_page_size() > 0,
    ensures
        spec_mid_phase(img, o, s, hoff) matches Ok((t, m)) ==> (!t.overflow ==> {
            let db = spec_plain(o.replace_dtb, img.blocks@.dtb);
            &&& spec_fwd(s, t)
            &&& s.pos <= p
            &&& (p - hoff) % (img.header.spec_page_size() as int) == 0
            &&& p + db.len() <= t.pos
            &&& t.buf.len() >= p + db.len()
            &&& t.buf.subrange(p, p + db.len()) == db
            &&& m.dtb == db.len() as u32
        }),
{
    reveal(spec_mid_phase);
    let b = img.blocks@;
    let page = img.header.spec_page_size() as int;
    let sb = spec_plain(o.replace_second, b.second);
    let s1 = spec_align_rel(spec_w(s, sb), hoff, page);
    let eb = spec_plain(o.replace_extra, b.extra);
    let rb = spec_plain(o.replace_recovery_dtbo, b.recovery_dtbo);
    let db = spec_plain(o.replace_dtb, b.dtb);
    lemma_w_align_fwd(s, sb, hoff, page, 0, 0);
    if s1.overflow {
        return 0;
    }
    let s2 = spec_align_rel(spec_w(s1, eb), hoff, page);
    lemma_w_align_fwd(s1, eb, hoff, page, 0, 0);
    if s2.overflow {
        return 0;
    }
    let s3 = spec_align_rel(spec_w(s2, rb), hoff, page);
    lemma_w_align_fwd(s2, rb, hoff, page, 0, 0);
    if s3.overflow {
        return 0;
    }
    lemma_align_rel_fwd(spec_w(s2, rb), hoff, page, 0, 0);
    lemma_w_fwd(s2, rb);
    let p = s3.pos;
    let w4 = spec_w(s3, db);
    lemma_w_fwd(s3, db);
    if w4.overflow {
        return p;
    }
    let e = p + db.len();
    let s4 = spec_align_rel(w4, hoff, page);
    lemma_align_rel_fwd(w4, hoff, page, p, e);
    let s5 = match b.signature {
        Some(sig) => spec_align_rel(spec_w(s4, sig), hoff, page),
        None => s4,
    };
    if let Some(sig) = b.signature {
        if !s4.overflow {
            lemma_w_align_fwd(s4, sig, hoff, page, p, e);
        }
    }
    lemma_fwd_trans(w4, s4, s5);
    lemma_keeps_trans(w4, s4, s5, p, e);
    let s6 = match spec_source_table(b) {
        Some(ents) => spec_align_rel(spec_w(s5, spec_vendor_table(ents)), hoff, page),
        None => s5,
    };
    if let Some(ents) = spec_source_table(b) {
        if !s5.overflow {
            lemma_w_align_fwd(s5, spec_vendor_table(ents), hoff, page, p, e);
        }
    }
    lemma_fwd_trans(w4, s5, s6);
    lemma_keeps_trans(w4, s5, s6, p, e);
    let bb = spec_plain(o.replace_bootconfig, b.bootconfig);
    let s7 = spec_align_rel(spec_w(s6, bb), hoff, page);
    if !s6.overflow {
        lemma_w_align_fwd(s6, bb, hoff, page, p, e);
    }
    lemma_fwd_trans(w4, s6, s7);
    lemma_keeps_trans(w4, s6, s7, p, e);
    lemma_fwd_trans(s, s1, s2);
    lemma_fwd_trans(s, s2, s3);
    lemma_fwd_trans(s, s3, w4);
    lemma_fwd_trans(s, w4, s7);
    p
}


/// The AVB data and the padding go at or past the end of the parts: what
/// lies before stays.
proof fn lemma_avb_keeps(img: &BootImage, s: OutState, hoff: int, a: int, b: int)
    requires
        s.pos >= 0,
        b <= s.pos,
    ensures
        spec_avb_phase(img, s, hoff) matches Ok(t) ==> spec_keeps(s, t, a, b),
{
    reveal(spec_avb_phase);
    let d = img.data@;
    let dl = d.len() as int;
    match opt_avb(img.avb_info) {
        Some(av) => {
            if !(s.overflow || s.pos + 4096 > usize::MAX) {
                let z = spec_zeros(spec_align_to(s.pos, 4096) - s.pos);
                crate::utils::lemma_align_to(s.pos, 4096);
                let s1 = spec_w(s, z);
                lemma_w_fwd(s, z);
                lemma_w_keeps(s, z, a, b);
                if !s1.overflow {
                    let s2 = spec_w(s1, av.header_data);
                    lemma_w_fwd(s1, av.header_data);
                    lemma_w_keeps(s1, av.header_data, a, b);
                    lemma_keeps_trans(s, s1, s2, a, b);
                    if dl >= AVB_FOOTER_SIZE && !(s2.pos + AVB_FOOTER_SIZE > dl && s.pos > dl - AVB_FOOTER_SIZE) {
                        let foot = spec_new_footer(av.footer_data, s1.pos, spec_img_size(s.pos, hoff));
                        if s2.pos + AVB_FOOTER_SIZE > dl {
                            let mid = d.subrange(s.pos, dl - AVB_FOOTER_SIZE);
                            let s3a = spec_w(s2, mid);
                            if !s2.overflow {
                                lemma_w_fwd(s2, mid);
                                lemma_w_keeps(s2, mid, a, b);
                            }
                            lemma_keeps_trans(s, s2, s3a, a, b);
                            let s3 = spec_seek(s3a, dl - AVB_FOOTER_SIZE);
                            lemma_keeps_trans(s, s3a, s3, a, b);
                            if !s3.overflow {
                                lemma_w_keeps(s3, foot, a, b);
                            }
                            lemma_keeps_trans(s, s3, spec_w(s3, foot), a, b);
                        } else {
                            let s3 = spec_seek(s2, dl - AVB_FOOTER_SIZE);
                            lemma_keeps_trans(s, s2, s3, a, b);
                            if !s3.overflow {
                                lemma_w_keeps(s3, foot, a, b);
                            }
                            lemma_keeps_trans(s, s3, spec_w(s3, foot), a, b);
                        }
                    }
                }
            }
        },
        None => {
            if s.pos < dl {
                lemma_w_keeps(s, spec_zeros(dl - s.pos), a, b);
            }
        },
    }
}

/// A header field written below `a` keeps `[a, b)`.
proof fn lemma_field32_keeps(s: OutState, hoff: int, off: u32, v: u32, a: int, b: int)
    requires
        hoff >= 0,
        hoff + off + 4 <= a || hoff + off >= b,
    ensures
        spec_keeps(s, spec_field32(s, hoff, off, v), a, b),
{
    let t = spec_seek(s, hoff + off);
    if !t.overflow {
        lemma_w_keeps(t, spec_le32_bytes(v), a, b);
    }
    lemma_keeps_trans(s, t, spec_field32(s, hoff, off, v), a, b);
}

/// Whether every header field that a repack sets lies inside the header,
/// the id field taking 32 bytes.
pub open spec fn spec_fields_inside(l: crate::layouts::BootHeaderLayout) -> bool {
    &&& crate::layouts::layout_wf(l)
    &&& l.offset_id != 0 ==> l.offset_id + BOOT_ID_SIZE <= l.total_size
}

/// Whether the header bytes `[ra, rb)` lie apart from every field that the
/// header fix-ups write (a missing size field counts as one at offset zero).
pub open spec fn spec_region_apart(l: crate::layouts::BootHeaderLayout, ra: int, rb: int) -> bool {
    &&& l.offset_kernel_size + 4 <= ra || l.offset_kernel_size >= rb
    &&& l.offset_ramdisk_size + 4 <= ra || l.offset_ramdisk_size >= rb
    &&& l.offset_second_size + 4 <= ra || l.offset_second_size >= rb
    &&& l.offset_extra_size + 4 <= ra || l.offset_extra_size >= rb
    &&& l.offset_recovery_dtbo_size + 4 <= ra || l.offset_recovery_dtbo_size >= rb
    &&& l.offset_recovery_dtbo_offset + 8 <= ra || l.offset_recovery_dtbo_offset >= rb
    &&& l.offset_dtb_size + 4 <= ra || l.offset_dtb_size >= rb
    &&& l.offset_header_size + 4 <= ra || l.offset_header_size >= rb
    &&& l.offset_vendor_ramdisk_table_size + 4 <= ra || l.offset_vendor_ramdisk_table_size >= rb
    &&& l.offset_bootconfig_size + 4 <= ra || l.offset_bootconfig_size >= rb
    &&& l.offset_id != 0 ==> (l.offset_id + BOOT_ID_SIZE <= ra || l.offset_id >= rb)
}

#[verifier::rlimit(40)]
proof fn lemma_fix_sizes_keeps(img: &BootImage, s: OutState, hoff: int, k: u32, r: u32, m: MidSizes, a: int, b: int)
    requires
        hoff >= 0,
        (spec_fields_inside(img.header.spec_layout()) && a >= hoff + img.header.spec_layout().total_size)
            || spec_region_apart(img.header.spec_layout(), a - hoff, b - hoff),
    ensures
        spec_keeps(s, spec_fix_sizes(img, s, hoff, k, r, m), a, b),
{
    reveal(spec_fix_sizes);
    let l = img.header.spec_layout();
    let s1 = spec_field32(s, hoff, l.offset_kernel_size, k);
    lemma_field32_keeps(s, hoff, l.offset_kernel_size, k, a, b);
    let s2 = if l.offset_ramdisk_size != 0 { spec_field32(s1, hoff, l.offset_ramdisk_size, r) } else { s1 };
    lemma_field32_keeps(s1, hoff, l.offset_ramdisk_size, r, a, b);
    lemma_keeps_trans(s, s1, s2, a, b);
    let s3 = if l.offset_second_size != 0 { spec_field32(s2, hoff, l.offset_second_size, m.second) } else { s2 };
    lemma_field32_keeps(s2, hoff, l.offset_second_size, m.second, a, b);
    lemma_keeps_trans(s, s2, s3, a, b);
    let s4 = if l.offset_extra_size != 0 { spec_field32(s3, hoff, l.offset_extra_size, m.extra) } else { s3 };
    lemma_field32_keeps(s3, hoff, l.offset_extra_size, m.extra, a, b);
    lemma_keeps_trans(s, s3, s4, a, b);
    let a4 = spec_field32(s4, hoff, l.offset_recovery_dtbo_size, m.recovery_dtbo);
    lemma_field32_keeps(s4, hoff, l.offset_recovery_dtbo_size, m.recovery_dtbo, a, b);
    let b4 = spec_seek(a4, hoff + l.offset_recovery_dtbo_offset);
    if !b4.overflow {
        lemma_w_keeps(b4, spec_le64_bytes(m.recovery_dtbo_off), a, b);
    }
    lemma_keeps_trans(s4, a4, b4, a, b);
    lemma_keeps_trans(s4, b4, spec_w(b4, spec_le64_bytes(m.recovery_dtbo_off)), a, b);
    let s5 = if l.offset_recovery_dtbo_size != 0 { spec_w(b4, spec_le64_bytes(m.recovery_dtbo_off)) } else { s4 };
    lemma_keeps_trans(s, s4, s5, a, b);
    let s6 = if l.offset_dtb_size != 0 { spec_field32(s5, hoff, l.offset_dtb_size, m.dtb) } else { s5 };
    lemma_field32_keeps(s5, hoff, l.offset_dtb_size, m.dtb, a, b);
    lemma_keeps_trans(s, s5, s6, a, b);
    let s7 = if l.offset_header_size != 0 { spec_field32(s6, hoff, l.offset_header_size, l.total_size) } else { s6 };
    lemma_field32_keeps(s6, hoff, l.offset_header_size, l.total_size, a, b);
    lemma_keeps_trans(s, s6, s7, a, b);
    let s8 = if l.offset_vendor_ramdisk_table_size != 0 && m.table > 0 {
        spec_field32(s7, hoff, l.offset_vendor_ramdisk_table_size, m.table)
    } else {
        s7
    };
    lemma_field32_keeps(s7, hoff, l.offset_vendor_ramdisk_table_size, m.table, a, b);
    lemma_keeps_trans(s, s7, s8, a, b);
    let s9 = if l.offset_bootconfig_size != 0 { spec_field32(s8, hoff, l.offset_bootconfig_size, m.bootconfig) } else { s8 };
    lemma_field32_keeps(s8, hoff, l.offset_bootconfig_size, m.bootconfig, a, b);
    lemma_keeps_trans(s, s8, s9, a, b);
}

/// The header fix-ups write only into the wrapper and the header: bytes from
/// the end of the header on stay.
#[verifier::rlimit(40)]
proof fn lemma_fix_header_keeps(
    img: &BootImage,
    s: OutState,
    hoff: int,
    k: u32,
    r: u32,
    m: MidSizes,
    size: int,
    a: int,
    b: int,
)
    requires
        hoff >= 0,
        (spec_fields_inside(img.header.spec_layout()) && a >= hoff + img.header.spec_layout().total_size)
            || spec_region_apart(img.header.spec_layout(), a - hoff, b - hoff),
        img.is_dhtb ==> a >= 52,
        img.is_blob ==> a >= 76,
    ensures
        spec_keeps(s, spec_fix_header(img, s, hoff, k, r, m, size), a, b),
{
    reveal(spec_fix_header);
    let l = img.header.spec_layout();
    let s9 = spec_fix_sizes(img, s, hoff, k, r, m);
    lemma_fix_sizes_keeps(img, s, hoff, k, r, m, a, b);
    let idb = spec_new_id(img.sha256_id, k, r, m);
    let ia = spec_seek(s9, hoff + l.offset_id);
    if l.offset_id != 0 && !ia.overflow {
        lemma_w_keeps(ia, idb, a, b);
    }
    let s10 = if l.offset_id != 0 { spec_w(ia, idb) } else { s9 };
    if l.offset_id != 0 {
        lemma_keeps_trans(s9, ia, s10, a, b);
    }
    lemma_keeps_trans(s, s9, s10, a, b);
    let t = spec_fix_header(img, s, hoff, k, r, m, size);
    if img.is_dhtb {
        let d = spec_seek(s10, 48);
        if !d.overflow {
            lemma_w_keeps(d, spec_le32_bytes((size + 20) as u32), a, b);
        }
        lemma_keeps_trans(s10, d, t, a, b);
    } else if img.is_blob {
        let d = spec_seek(s10, 72);
        if !d.overflow {
            lemma_w_keeps(d, spec_le32_bytes(size as u32), a, b);
        }
        lemma_keeps_trans(s10, d, t, a, b);
    }
    lemma_keeps_trans(s, s10, t, a, b);
}


proof fn lemma_le32_bytes_len(v: u32)
    ensures
        spec_le32_bytes(v).len() == 4,
{
}



/// Whether the header fields that a repack writes lie apart from each other:
/// the size fields, the recovery DTBO offset (8 bytes) and the id (32 bytes).
pub open spec fn spec_fields_apart(l: crate::layouts::BootHeaderLayout) -> bool {
    &&& l.offset_ramdisk_size != 0 ==> (l.offset_kernel_size + 4 <= l.offset_ramdisk_size || l.offset_ramdisk_size + 4 <= l.offset_kernel_size)
    &&& l.offset_second_size != 0 ==> (l.offset_kernel_size + 4 <= l.offset_second_size || l.offset_second_size + 4 <= l.offset_kernel_size)
    &&& l.offset_extra_size != 0 ==> (l.offset_kernel_size + 4 <= l.offset_extra_size || l.offset_extra_size + 4 <= l.offset_kernel_size)
    &&& l.offset_recovery_dtbo_size != 0 ==> (l.offset_kernel_size + 4 <= l.offset_recovery_dtbo_size || l.offset_recovery_dtbo_size + 4 <= l.offset_kernel_size)
    &&& l.offset_recovery_dtbo_size != 0 ==> (l.offset_kernel_size + 4 <= l.offset_recovery_dtbo_offset || l.offset_recovery_dtbo_offset + 8 <= l.offset_kernel_size)
    &&& l.offset_dtb_size != 0 ==> (l.offset_kernel_size + 4 <= l.offset_dtb_size || l.offset_dtb_size + 4 <= l.offset_kernel_size)
    &&& l.offset_header_size != 0 ==> (l.offset_kernel_size + 4 <= l.offset_header_size || l.offset_header_size + 4 <= l.offset_kernel_size)
    &&& l.offset_vendor_ramdisk_table_size != 0 ==> (l.offset_kernel_size + 4 <= l.offset_vendor_ramdisk_table_size || l.offset_vendor_ramdisk_table_size + 4 <= l.offset_kernel_size)
    &&& l.offset_bootconfig_size != 0 ==> (l.offset_kernel_size + 4 <= l.offset_bootconfig_size || l.offset_bootconfig_size + 4 <= l.offset_kernel_size)
    &&& l.offset_id != 0 ==> (l.offset_kernel_size + 4 <= l.offset_id || l.offset_id + 32 <= l.offset_kernel_size)
    &&& l.offset_ramdisk_size != 0 && l.offset_second_size != 0 ==> (l.offset_ramdisk_size + 4 <= l.offset_second_size || l.offset_second_size + 4 <= l.offset_ramdisk_size)
    &&& l.offset_ramdisk_size != 0 && l.offset_extra_size != 0 ==> (l.offset_ramdisk_size + 4 <= l.offset_extra_size || l.offset_extra_size + 4 <= l.offset_ramdisk_size)
    &&& l.offset_ramdisk_size != 0 && l.offset_recovery_dtbo_size != 0 ==> (l.offset_ramdisk_size + 4 <= l.offset_recovery_dtbo_size || l.offset_recovery_dtbo_size + 4 <= l.offset_ramdisk_size)
    &&& l.offset_ramdisk_size != 0 && l.offset_recovery_dtbo_size != 0 ==> (l.offset_ramdisk_size + 4 <= l.offset_recovery_dtbo_offset || l.offset_recovery_dtbo_offset + 8 <= l.offset_ramdisk_size)
    &&& l.offset_ramdisk_size != 0 && l.offset_dtb_size != 0 ==> (l.offset_ramdisk_size + 4 <= l.offset_dtb_size || l.offset_dtb_size + 4 <= l.offset_ramdisk_size)
    &&& l.offset_ramdisk_size != 0 && l.offset_header_size != 0 ==> (l.offset_ramdisk_size + 4 <= l.offset_header_size || l.offset_header_size + 4 <= l.offset_ramdisk_size)
    &&& l.offset_ramdisk_size != 0 && l.offset_vendor_ramdisk_table_size != 0 ==> (l.offset_ramdisk_size + 4 <= l.offset_vendor_ramdisk_table_size || l.offset_vendor_ramdisk_table_size + 4 <= l.offset_ramdisk_size)
    &&& l.offset_ramdisk_size != 0 && l.offset_bootconfig_size != 0 ==> (l.offset_ramdisk_size + 4 <= l.offset_bootconfig_size || l.offset_bootconfig_size + 4 <= l.offset_ramdisk_size)
    &&& l.offset_ramdisk_size != 0 && l.offset_id != 0 ==> (l.offset_ramdisk_size + 4 <= l.offset_id || l.offset_id + 32 <= l.offset_ramdisk_size)
    &&& l.offset_second_size != 0 && l.offset_extra_size != 0 ==> (l.offset_second_size + 4 <= l.offset_extra_size || l.offset_extra_size + 4 <= l.offset_second_size)
    &&& l.offset_second_size != 0 && l.offset_recovery_dtbo_size != 0 ==> (l.offset_second_size + 4 <= l.offset_recovery_dtbo_size || l.offset_recovery_dtbo_size + 4 <= l.offset_second_size)
    &&& l.offset_second_size != 0 && l.offset_recovery_dtbo_size != 0 ==> (l.offset_second_size + 4 <= l.offset_recovery_dtbo_offset || l.offset_recovery_dtbo_offset + 8 <= l.offset_second_size)
    &&& l.offset_second_size != 0 && l.offset_dtb_size != 0 ==> (l.offset_second_size + 4 <= l.offset_dtb_size || l.offset_dtb_size + 4 <= l.offset_second_size)
    &&& l.offset_second_size != 0 && l.offset_header_size != 0 ==> (l.offset_second_size + 4 <= l.offset_header_size || l.offset_header_size + 4 <= l.offset_second_size)
    &&& l.offset_second_size != 0 && l.offset_vendor_ramdisk_table_size != 0 ==> (l.offset_second_size + 4 <= l.offset_vendor_ramdisk_table_size || l.offset_vendor_ramdisk_table_size + 4 <= l.offset_second_size)
    &&& l.offset_second_size != 0 && l.offset_bootconfig_size != 0 ==> (l.offset_second_size + 4 <= l.offset_bootconfig_size || l.offset_bootconfig_size + 4 <= l.offset_second_size)
    &&& l.offset_second_size != 0 && l.offset_id != 0 ==> (l.offset_second_size + 4 <= l.offset_id || l.offset_id + 32 <= l.offset_second_size)
    &&& l.offset_extra_size != 0 && l.offset_recovery_dtbo_size != 0 ==> (l.offset_extra_size + 4 <= l.offset_recovery_dtbo_size || l.offset_recovery_dtbo_size + 4 <= l.offset_extra_size)
    &&& l.offset_extra_size != 0 && l.offset_recovery_dtbo_size != 0 ==> (l.offset_extra_size + 4 <= l.offset_recovery_dtbo_offset || l.offset_recovery_dtbo_offset + 8 <= l.offset_extra_size)
    &&& l.offset_extra_size != 0 && l.offset_dtb_size != 0 ==> (l.offset_extra_size + 4 <= l.offset_dtb_size || l.offset_dtb_size + 4 <= l.offset_extra_size)
    &&& l.offset_extra_size != 0 && l.offset_header_size != 0 ==> (l.offset_extra_size + 4 <= l.offset_header_size || l.offset_header_size + 4 <= l.offset_extra_size)
    &&& l.offset_extra_size != 0 && l.offset_vendor_ramdisk_table_size != 0 ==> (l.offset_extra_size + 4 <= l.offset_vendor_ramdisk_table_size || l.offset_vendor_ramdisk_table_size + 4 <= l.offset_extra_size)
    &&& l.offset_extra_size != 0 && l.offset_bootconfig_size != 0 ==> (l.offset_extra_size + 4 <= l.offset_bootconfig_size || l.offset_bootconfig_size + 4 <= l.offset_extra_size)
    &&& l.offset_extra_size != 0 && l.offset_id != 0 ==> (l.offset_extra_size + 4 <= l.offset_id || l.offset_id + 32 <= l.offset_extra_size)
    &&& l.offset_recovery_dtbo_size != 0 && l.offset_recovery_dtbo_size != 0 ==> (l.offset_recovery_dtbo_size + 4 <= l.offset_recovery_dtbo_offset || l.offset_recovery_dtbo_offset + 8 <= l.offset_recovery_dtbo_size)
    &&& l.offset_recovery_dtbo_size != 0 && l.offset_dtb_size != 0 ==> (l.offset_recovery_dtbo_size + 4 <= l.offset_dtb_size || l.offset_dtb_size + 4 <= l.offset_recovery_dtbo_size)
    &&& l.offset_recovery_dtbo_size != 0 && l.offset_header_size != 0 ==> (l.offset_recovery_dtbo_size + 4 <= l.offset_header_size || l.offset_header_size + 4 <= l.offset_recovery_dtbo_size)
    &&& l.offset_recovery_dtbo_size != 0 && l.offset_vendor_ramdisk_table_size != 0 ==> (l.offset_recovery_dtbo_size + 4 <= l.offset_vendor_ramdisk_table_size || l.offset_vendor_ramdisk_table_size + 4 <= l.offset_recovery_dtbo_size)
    &&& l.offset_recovery_dtbo_size != 0 && l.offset_bootconfig_size != 0 ==> (l.offset_recovery_dtbo_size + 4 <= l.offset_bootconfig_size || l.offset_bootconfig_size + 4 <= l.offset_recovery_dtbo_size)
    &&& l.offset_recovery_dtbo_size != 0 && l.offset_id != 0 ==> (l.offset_recovery_dtbo_size + 4 <= l.offset_id || l.offset_id + 32 <= l.offset_recovery_dtbo_size)
    &&& l.offset_recovery_dtbo_size != 0 && l.offset_dtb_size != 0 ==> (l.offset_recovery_dtbo_offset + 8 <= l.offset_dtb_size || l.offset_dtb_size + 4 <= l.offset_recovery_dtbo_offset)
    &&& l.offset_recovery_dtbo_size != 0 && l.offset_header_size != 0 ==> (l.offset_recovery_dtbo_offset + 8 <= l.offset_header_size || l.offset_header_size + 4 <= l.offset_recovery_dtbo_offset)
    &&& l.offset_recovery_dtbo_size != 0 && l.offset_vendor_ramdisk_table_size != 0 ==> (l.offset_recovery_dtbo_offset + 8 <= l.offset_vendor_ramdisk_table_size || l.offset_vendor_ramdisk_table_size + 4 <= l.offset_recovery_dtbo_offset)
    &&& l.offset_recovery_dtbo_size != 0 && l.offset_bootconfig_size != 0 ==> (l.offset_recovery_dtbo_offset + 8 <= l.offset_bootconfig_size || l.offset_bootconfig_size + 4 <= l.offset_recovery_dtbo_offset)
    &&& l.offset_recovery_dtbo_size != 0 && l.offset_id != 0 ==> (l.offset_recovery_dtbo_offset + 8 <= l.offset_id || l.offset_id + 32 <= l.offset_recovery_dtbo_offset)
    &&& l.offset_dtb_size != 0 && l.offset_header_size != 0 ==> (l.offset_dtb_size + 4 <= l.offset_header_size || l.offset_header_size + 4 <= l.offset_dtb_size)
    &&& l.offset_dtb_size != 0 && l.offset_vendor_ramdisk_table_size != 0 ==> (l.offset_dtb_size + 4 <= l.offset_vendor_ramdisk_table_size || l.offset_vendor_ramdisk_table_size + 4 <= l.offset_dtb_size)
    &&& l.offset_dtb_size != 0 && l.offset_bootconfig_size != 0 ==> (l.offset_dtb_size + 4 <= l.offset_bootconfig_size || l.offset_bootconfig_size + 4 <= l.offset_dtb_size)
    &&& l.offset_dtb_size != 0 && l.offset_id != 0 ==> (l.offset_dtb_size + 4 <= l.offset_id || l.offset_id + 32 <= l.offset_dtb_size)
    &&& l.offset_header_size != 0 && l.offset_vendor_ramdisk_table_size != 0 ==> (l.offset_header_size + 4 <= l.offset_vendor_ramdisk_table_size || l.offset_vendor_ramdisk_table_size + 4 <= l.offset_header_size)
    &&& l.offset_header_size != 0 && l.offset_bootconfig_size != 0 ==> (l.offset_header_size + 4 <= l.offset_bootconfig_size || l.offset_bootconfig_size + 4 <= l.offset_header_size)
    &&& l.offset_header_size != 0 && l.offset_id != 0 ==> (l.offset_header_size + 4 <= l.offset_id || l.offset_id + 32 <= l.offset_header_size)
    &&& l.offset_vendor_ramdisk_table_size != 0 && l.offset_bootconfig_size != 0 ==> (l.offset_vendor_ramdisk_table_size + 4 <= l.offset_bootconfig_size || l.offset_bootconfig_size + 4 <= l.offset_vendor_ramdisk_table_size)
    &&& l.offset_vendor_ramdisk_table_size != 0 && l.offset_id != 0 ==> (l.offset_vendor_ramdisk_table_size + 4 <= l.offset_id || l.offset_id + 32 <= l.offset_vendor_ramdisk_table_size)
    &&& l.offset_bootconfig_size != 0 && l.offset_id != 0 ==> (l.offset_bootconfig_size + 4 <= l.offset_id || l.offset_id + 32 <= l.offset_bootconfig_size)
}

/// Every header format the library knows keeps the fields a repack sets
/// inside the header and apart from each other.
proof fn lemma_known_layout(k: crate::layouts::LayoutKind)
    ensures
        spec_fields_inside(crate::layouts::spec_layout(k)),
        spec_fields_apart(crate::layouts::spec_layout(k)),
        spec_region_apart(
            crate::layouts::spec_layout(k),
            crate::layouts::spec_layout(k).offset_cmdline as int,
            crate::layouts::spec_layout(k).offset_cmdline + crate::layouts::spec_layout(k).size_cmdline,
        ),
        crate::layouts::spec_layout(k).offset_os_version != 0 ==> spec_region_apart(
            crate::layouts::spec_layout(k),
            crate::layouts::spec_layout(k).offset_os_version as int,
            crate::layouts::spec_layout(k).offset_os_version + 4,
        ),
        crate::layouts::spec_layout(k).offset_os_version != 0 ==> (crate::layouts::spec_layout(k).offset_os_version
            + 4 <= crate::layouts::spec_layout(k).offset_cmdline || crate::layouts::spec_layout(k).offset_os_version
            >= crate::layouts::spec_layout(k).offset_cmdline + crate::layouts::spec_layout(k).size_cmdline),
{
    match k {
        crate::layouts::LayoutKind::BootV0 => {},
        crate::layouts::LayoutKind::BootV1 => {},
        crate::layouts::LayoutKind::BootV2 => {},
        crate::layouts::LayoutKind::BootV3 => {},
        crate::layouts::LayoutKind::BootV4 => {},
        crate::layouts::LayoutKind::VendorV3 => {},
        crate::layouts::LayoutKind::VendorV4 => {},
        crate::layouts::LayoutKind::Pxa => {},
    }
}

/// What the header region leaves: the header starts after the wrapper bytes
/// and the parts start a header space later.
proof fn lemma_head_pos(img: &BootImage, o: PatchOptsModel)
    requires
        spec_patch_source_ok(img),
    ensures
        spec_head(img, o) matches Ok((s0, hoff)) ==> (!s0.overflow ==> {
            &&& hoff == spec_pre_header(img).len()
            &&& s0.pos == hoff + img.header.spec_hdr_space()
            &&& img.is_dhtb ==> hoff == 512
            &&& (!img.is_dhtb && img.is_blob) ==> hoff == 80
        }),
{
    reveal(spec_head);
}

proof fn lemma_vendor_repl_overflow(o: PatchOptsModel, ents: Seq<RamdiskEntryModel>, s0: OutState, k: int)
    requires
        s0.overflow,
    ensures
        spec_vendor_repl(o, ents, s0, k) matches Ok(t) ==> t.overflow,
    decreases k,
{
    if k > 0 {
        lemma_vendor_repl_overflow(o, ents, s0, k - 1);
    }
}

/// Once a position ran past `usize`, every later phase says so.
proof fn lemma_phases_sticky(img: &BootImage, o: PatchOptsModel, s: OutState, hoff: int)
    requires
        s.overflow,
    ensures
        spec_kernel_phase(img, o, s, hoff) matches Ok((t, _)) ==> t.overflow,
        spec_ramdisk_phase(img, o, s, hoff) matches Ok((t, _)) ==> t.overflow,
        spec_mid_phase(img, o, s, hoff) matches Ok((t, _)) ==> t.overflow,
        spec_avb_phase(img, s, hoff) matches Ok(t) ==> t.overflow,
{
    reveal(spec_kernel_phase);
    reveal(spec_ramdisk_phase);
    reveal(spec_mid_phase);
    reveal(spec_avb_phase);
    let b0 = img.blocks@;
    if b0.ramdisk matches Some(r) && r.vendor_entries is Some {
        let ents = b0.ramdisk->Some_0.vendor_entries->Some_0;
        lemma_vendor_repl_overflow(o, ents, s, o.replace_vendor_ramdisk.len() as int);
        if let Ok(s1) = spec_vendor_repl(o, ents, s, o.replace_vendor_ramdisk.len() as int) {
            lemma_vendor_rest_overflow(o, ents, s1, ents.len() as int);
        }
    }
}

/// Replacing the DTB puts exactly the replacement into the repacked image, at
/// a page boundary past the header, and sets the header's DTB size field to
/// its length.
pub proof fn law_patch_writes_replaced_dtb(img: &BootImage, o: PatchOptsModel, x: Seq<u8>)
    requires
        spec_patch_source_ok(img),
        exists|k: crate::layouts::LayoutKind| img.header.spec_layout() == crate::layouts::spec_layout(k),
        img.header.spec_layout().offset_dtb_size != 0,
        o.replace_dtb == Some(x),
    ensures
        spec_patch(img, o) matches Ok(out) ==> {
            let hoff = spec_pre_header(img).len() as int;
            let page = img.header.spec_page_size() as int;
            &&& crate::bytes::spec_le32(out, hoff + img.header.spec_layout().offset_dtb_size) == x.len() as u32
            &&& exists|p: int|
                hoff + img.header.spec_hdr_space() <= p && (p - hoff) % page == 0 && p + x.len() <= out.len()
                    && #[trigger] out.subrange(p, p + x.len()) == x
        },
{
    let l = img.header.spec_layout();
    let kind = choose|k: crate::layouts::LayoutKind| img.header.spec_layout() == crate::layouts::spec_layout(k);
    lemma_known_layout(kind);
    img.header.lemma_hdr_space();
    lemma_head_pos(img, o);
    if let Ok(out) = spec_patch(img, o) {
        let (s0, hoff) = spec_head(img, o)->Ok_0;
        let (s1, k) = spec_kernel_phase(img, o, s0, hoff)->Ok_0;
        let (s2, r) = spec_ramdisk_phase(img, o, s1, hoff)->Ok_0;
        let (s3, m) = spec_mid_phase(img, o, s2, hoff)->Ok_0;
        let s4 = spec_avb_phase(img, s3, hoff)->Ok_0;
        let size = spec_img_size(s3.pos, hoff);
        let s5 = spec_fix_header(img, s4, hoff, k, r, m, size);
        assert(!s5.overflow && out == s5.buf);
        reveal(spec_head);
        assert(hoff >= 0);
        lemma_fix_header_grows(img, s4, hoff, k, r, m, size);
        if s3.overflow {
            lemma_phases_sticky(img, o, s3, hoff);
        }
        if s2.overflow {
            lemma_phases_sticky(img, o, s2, hoff);
        }
        if s1.overflow {
            lemma_phases_sticky(img, o, s1, hoff);
        }
        if s0.overflow {
            lemma_phases_sticky(img, o, s0, hoff);
        }
        assert(!s0.overflow);
        lemma_kernel_ramdisk_fwd(img, o, s0, hoff, 0, 0);
        lemma_kernel_ramdisk_fwd(img, o, s1, hoff, 0, 0);
        let p = lemma_mid_dtb(img, o, s2, hoff);
        let e = p + x.len();
        assert(s3.buf.subrange(p, e) == x);
        lemma_avb_keeps(img, s3, hoff, p, e);
        lemma_fix_header_keeps(img, s4, hoff, k, r, m, size, p, e);
        lemma_keeps_trans(s3, s4, s5, p, e);
        assert(out.subrange(p, e) == x);
        let f = hoff + l.offset_dtb_size;
        lemma_fix_sizes_field_dtb(img, s4, hoff, k, r, m);
        lemma_fix_sizes_grows(img, s4, hoff, k, r, m);
        lemma_fix_header_tail(img, s4, hoff, k, r, m, size, f, 4);
        let s9 = spec_fix_sizes(img, s4, hoff, k, r, m);
        assert(!s9.overflow);
        let fb = out.subrange(f, f + 4);
        assert(fb == spec_le32_bytes(m.dtb));
        crate::bytes::lemma_le32_roundtrip(m.dtb);
        assert(fb[0] == out[f] && fb[1] == out[f + 1] && fb[2] == out[f + 2] && fb[3] == out[f + 3]);
        assert(crate::bytes::spec_le32(out, f) == crate::bytes::spec_le32(fb, 0));
    }
}

/// The header's kernel size field ends up holding the size the repack gives it.
#[verifier::rlimit(100)]
#[verifier::spinoff_prover]
proof fn lemma_fix_sizes_field_kernel(img: &BootImage, s: OutState, hoff: int, k: u32, r: u32, m: MidSizes)
    requires
        hoff >= 0,
        spec_fields_apart(img.header.spec_layout()),
    ensures
        ({
            let l = img.header.spec_layout();
            let t = spec_fix_sizes(img, s, hoff, k, r, m);
            let f = hoff + l.offset_kernel_size;
            (!t.overflow ==> t.buf.len() >= f + 4 && t.buf.subrange(f, f + 4) == spec_le32_bytes(k))
        }),
{
    reveal(spec_fix_sizes);
    let l = img.header.spec_layout();
    let f = hoff + l.offset_kernel_size;
    let s1 = spec_field32(s, hoff, l.offset_kernel_size, k);
    let s2 = if l.offset_ramdisk_size != 0 { spec_field32(s1, hoff, l.offset_ramdisk_size, r) } else { s1 };
    let s3 = if l.offset_second_size != 0 { spec_field32(s2, hoff, l.offset_second_size, m.second) } else { s2 };
    let s4 = if l.offset_extra_size != 0 { spec_field32(s3, hoff, l.offset_extra_size, m.extra) } else { s3 };
    let a5 = spec_field32(s4, hoff, l.offset_recovery_dtbo_size, m.recovery_dtbo);
    let b5 = spec_seek(a5, hoff + l.offset_recovery_dtbo_offset);
    let s5 = if l.offset_recovery_dtbo_size != 0 { spec_w(b5, spec_le64_bytes(m.recovery_dtbo_off)) } else { s4 };
    let s6 = if l.offset_dtb_size != 0 { spec_field32(s5, hoff, l.offset_dtb_size, m.dtb) } else { s5 };
    let s7 = if l.offset_header_size != 0 { spec_field32(s6, hoff, l.offset_header_size, l.total_size) } else { s6 };
    let s8 = if l.offset_vendor_ramdisk_table_size != 0 && m.table > 0 { spec_field32(s7, hoff, l.offset_vendor_ramdisk_table_size, m.table) } else { s7 };
    let s9 = if l.offset_bootconfig_size != 0 { spec_field32(s8, hoff, l.offset_bootconfig_size, m.bootconfig) } else { s8 };
    lemma_le32_bytes_len(k);
    if true {
        let sk = spec_seek(s, f);
        if !sk.overflow {
            lemma_w_fwd(sk, spec_le32_bytes(k));
        }
        if l.offset_ramdisk_size != 0 {
            lemma_field32_keeps(s1, hoff, l.offset_ramdisk_size, r, f, f + 4);
        }
        lemma_keeps_trans(s1, s1, s2, f, f + 4);
        if l.offset_second_size != 0 {
            lemma_field32_keeps(s2, hoff, l.offset_second_size, m.second, f, f + 4);
        }
        lemma_keeps_trans(s1, s2, s3, f, f + 4);
        if l.offset_extra_size != 0 {
            lemma_field32_keeps(s3, hoff, l.offset_extra_size, m.extra, f, f + 4);
        }
        lemma_keeps_trans(s1, s3, s4, f, f + 4);
        if l.offset_recovery_dtbo_size != 0 {
            lemma_field32_keeps(s4, hoff, l.offset_recovery_dtbo_size, m.recovery_dtbo, f, f + 4);
            if !b5.overflow {
                lemma_w_keeps(b5, spec_le64_bytes(m.recovery_dtbo_off), f, f + 4);
            }
            lemma_keeps_trans(s4, a5, b5, f, f + 4);
            lemma_keeps_trans(s4, b5, s5, f, f + 4);
        }
        lemma_keeps_trans(s1, s4, s5, f, f + 4);
        if l.offset_dtb_size != 0 {
            lemma_field32_keeps(s5, hoff, l.offset_dtb_size, m.dtb, f, f + 4);
        }
        lemma_keeps_trans(s1, s5, s6, f, f + 4);
        if l.offset_header_size != 0 {
            lemma_field32_keeps(s6, hoff, l.offset_header_size, l.total_size, f, f + 4);
        }
        lemma_keeps_trans(s1, s6, s7, f, f + 4);
        if l.offset_vendor_ramdisk_table_size != 0 {
            lemma_field32_keeps(s7, hoff, l.offset_vendor_ramdisk_table_size, m.table, f, f + 4);
        }
        lemma_keeps_trans(s1, s7, s8, f, f + 4);
        if l.offset_bootconfig_size != 0 {
            lemma_field32_keeps(s8, hoff, l.offset_bootconfig_size, m.bootconfig, f, f + 4);
        }
        lemma_keeps_trans(s1, s8, s9, f, f + 4);
    }
}

/// The header's ramdisk size field ends up holding the size the repack gives it.
#[verifier::rlimit(100)]
#[verifier::spinoff_prover]
proof fn lemma_fix_sizes_field_ramdisk(img: &BootImage, s: OutState, hoff: int, k: u32, r: u32, m: MidSizes)
    requires
        hoff >= 0,
        spec_fields_apart(img.header.spec_layout()),
    ensures
        ({
            let l = img.header.spec_layout();
            let t = spec_fix_sizes(img, s, hoff, k, r, m);
            let f = hoff + l.offset_ramdisk_size;
            l.offset_ramdisk_size != 0 ==> (!t.overflow ==> t.buf.len() >= f + 4 && t.buf.subrange(f, f + 4) == spec_le32_bytes(r))
        }),
{
    reveal(spec_fix_sizes);
    let l = img.header.spec_layout();
    let f = hoff + l.offset_ramdisk_size;
    let s1 = spec_field32(s, hoff, l.offset_kernel_size, k);
    let s2 = if l.offset_ramdisk_size != 0 { spec_field32(s1, hoff, l.offset_ramdisk_size, r) } else { s1 };
    let s3 = if l.offset_second_size != 0 { spec_field32(s2, hoff, l.offset_second_size, m.second) } else { s2 };
    let s4 = if l.offset_extra_size != 0 { spec_field32(s3, hoff, l.offset_extra_size, m.extra) } else { s3 };
    let a5 = spec_field32(s4, hoff, l.offset_recovery_dtbo_size, m.recovery_dtbo);
    let b5 = spec_seek(a5, hoff + l.offset_recovery_dtbo_offset);
    let s5 = if l.offset_recovery_dtbo_size != 0 { spec_w(b5, spec_le64_bytes(m.recovery_dtbo_off)) } else { s4 };
    let s6 = if l.offset_dtb_size != 0 { spec_field32(s5, hoff, l.offset_dtb_size, m.dtb) } else { s5 };
    let s7 = if l.offset_header_size != 0 { spec_field32(s6, hoff, l.offset_header_size, l.total_size) } else { s6 };
    let s8 = if l.offset_vendor_ramdisk_table_size != 0 && m.table > 0 { spec_field32(s7, hoff, l.offset_vendor_ramdisk_table_size, m.table) } else { s7 };
    let s9 = if l.offset_bootconfig_size != 0 { spec_field32(s8, hoff, l.offset_bootconfig_size, m.bootconfig) } else { s8 };
    lemma_le32_bytes_len(r);
    if l.offset_ramdisk_size != 0 {
        let sk = spec_seek(s1, f);
        if !sk.overflow {
            lemma_w_fwd(sk, spec_le32_bytes(r));
        }
        if l.offset_second_size != 0 {
            lemma_field32_keeps(s2, hoff, l.offset_second_size, m.second, f, f + 4);
        }
        lemma_keeps_trans(s2, s2, s3, f, f + 4);
        if l.offset_extra_size != 0 {
            lemma_field32_keeps(s3, hoff, l.offset_extra_size, m.extra, f, f + 4);
        }
        lemma_keeps_trans(s2, s3, s4, f, f + 4);
        if l.offset_recovery_dtbo_size != 0 {
            lemma_field32_keeps(s4, hoff, l.offset_recovery_dtbo_size, m.recovery_dtbo, f, f + 4);
            if !b5.overflow {
                lemma_w_keeps(b5, spec_le64_bytes(m.recovery_dtbo_off), f, f + 4);
            }
            lemma_keeps_trans(s4, a5, b5, f, f + 4);
            lemma_keeps_trans(s4, b5, s5, f, f + 4);
        }
        lemma_keeps_trans(s2, s4, s5, f, f + 4);
        if l.offset_dtb_size != 0 {
            lemma_field32_keeps(s5, hoff, l.offset_dtb_size, m.dtb, f, f + 4);
        }
        lemma_keeps_trans(s2, s5, s6, f, f + 4);
        if l.offset_header_size != 0 {
            lemma_field32_keeps(s6, hoff, l.offset_header_size, l.total_size, f, f + 4);
        }
        lemma_keeps_trans(s2, s6, s7, f, f + 4);
        if l.offset_vendor_ramdisk_table_size != 0 {
            lemma_field32_keeps(s7, hoff, l.offset_vendor_ramdisk_table_size, m.table, f, f + 4);
        }
        lemma_keeps_trans(s2, s7, s8, f, f + 4);
        if l.offset_bootconfig_size != 0 {
            lemma_field32_keeps(s8, hoff, l.offset_bootconfig_size, m.bootconfig, f, f + 4);
        }
        lemma_keeps_trans(s2, s8, s9, f, f + 4);
    }
}

/// The header's second size field ends up holding the size the repack gives it.
#[verifier::rlimit(100)]
#[verifier::spinoff_prover]
proof fn lemma_fix_sizes_field_second(img: &BootImage, s: OutState, hoff: int, k: u32, r: u32, m: MidSizes)
    requires
        hoff >= 0,
        spec_fields_apart(img.header.spec_layout()),
    ensures
        ({
            let l = img.header.spec_layout();
            let t = spec_fix_sizes(img, s, hoff, k, r, m);
            let f = hoff + l.offset_second_size;
            l.offset_second_size != 0 ==> (!t.overflow ==> t.buf.len() >= f + 4 && t.buf.subrange(f, f + 4) == spec_le32_bytes(m.second))
        }),
{
    reveal(spec_fix_sizes);
    let l = img.header.spec_layout();
    let f = hoff + l.offset_second_size;
    let s1 = spec_field32(s, hoff, l.offset_kernel_size, k);
    let s2 = if l.offset_ramdisk_size != 0 { spec_field32(s1, hoff, l.offset_ramdisk_size, r) } else { s1 };
    let s3 = if l.offset_second_size != 0 { spec_field32(s2, hoff, l.offset_second_size, m.second) } else { s2 };
    let s4 = if l.offset_extra_size != 0 { spec_field32(s3, hoff, l.offset_extra_size, m.extra) } else { s3 };
    let a5 = spec_field32(s4, hoff, l.offset_recovery_dtbo_size, m.recovery_dtbo);
    let b5 = spec_seek(a5, hoff + l.offset_recovery_dtbo_offset);
    let s5 = if l.offset_recovery_dtbo_size != 0 { spec_w(b5, spec_le64_bytes(m.recovery_dtbo_off)) } else { s4 };
    let s6 = if l.offset_dtb_size != 0 { spec_field32(s5, hoff, l.offset_dtb_size, m.dtb) } else { s5 };
    let s7 = if l.offset_header_size != 0 { spec_field32(s6, hoff, l.offset_header_size, l.total_size) } else { s6 };
    let s8 = if l.offset_vendor_ramdisk_table_size != 0 && m.table > 0 { spec_field32(s7, hoff, l.offset_vendor_ramdisk_table_size, m.table) } else { s7 };
    let s9 = if l.offset_bootconfig_size != 0 { spec_field32(s8, hoff, l.offset_bootconfig_size, m.bootconfig) } else { s8 };
    lemma_le32_bytes_len(m.second);
    if l.offset_second_size != 0 {
        let sk = spec_seek(s2, f);
        if !sk.overflow {
            lemma_w_fwd(sk, spec_le32_bytes(m.second));
        }
        if l.offset_extra_size != 0 {
            lemma_field32_keeps(s3, hoff, l.offset_extra_size, m.extra, f, f + 4);
        }
        lemma_keeps_trans(s3, s3, s4, f, f + 4);
        if l.offset_recovery_dtbo_size != 0 {
            lemma_field32_keeps(s4, hoff, l.offset_recovery_dtbo_size, m.recovery_dtbo, f, f + 4);
            if !b5.overflow {
                lemma_w_keeps(b5, spec_le64_bytes(m.recovery_dtbo_off), f, f + 4);
            }
            lemma_keeps_trans(s4, a5, b5, f, f + 4);
            lemma_keeps_trans(s4, b5, s5, f, f + 4);
        }
        lemma_keeps_trans(s3, s4, s5, f, f + 4);
        if l.offset_dtb_size != 0 {
            lemma_field32_keeps(s5, hoff, l.offset_dtb_size, m.dtb, f, f + 4);
        }
        lemma_keeps_trans(s3, s5, s6, f, f + 4);
        if l.offset_header_size != 0 {
            lemma_field32_keeps(s6, hoff, l.offset_header_size, l.total_size, f, f + 4);
        }
        lemma_keeps_trans(s3, s6, s7, f, f + 4);
        if l.offset_vendor_ramdisk_table_size != 0 {
            lemma_field32_keeps(s7, hoff, l.offset_vendor_ramdisk_table_size, m.table, f, f + 4);
        }
        lemma_keeps_trans(s3, s7, s8, f, f + 4);
        if l.offset_bootconfig_size != 0 {
            lemma_field32_keeps(s8, hoff, l.offset_bootconfig_size, m.bootconfig, f, f + 4);
        }
        lemma_keeps_trans(s3, s8, s9, f, f + 4);
    }
}

/// The header's extra size field ends up holding the size the repack gives it.
#[verifier::rlimit(100)]
#[verifier::spinoff_prover]
proof fn lemma_fix_sizes_field_extra(img: &BootImage, s: OutState, hoff: int, k: u32, r: u32, m: MidSizes)
    requires
        hoff >= 0,
        spec_fields_apart(img.header.spec_layout()),
    ensures
        ({
            let l = img.header.spec_layout();
            let t = spec_fix_sizes(img, s, hoff, k, r, m);
            let f = hoff + l.offset_extra_size;
            l.offset_extra_size != 0 ==> (!t.overflow ==> t.buf.len() >= f + 4 && t.buf.subrange(f, f + 4) == spec_le32_bytes(m.extra))
        }),
{
    reveal(spec_fix_sizes);
    let l = img.header.spec_layout();
    let f = hoff + l.offset_extra_size;
    let s1 = spec_field32(s, hoff, l.offset_kernel_size, k);
    let s2 = if l.offset_ramdisk_size != 0 { spec_field32(s1, hoff, l.offset_ramdisk_size, r) } else { s1 };
    let s3 = if l.offset_second_size != 0 { spec_field32(s2, hoff, l.offset_second_size, m.second) } else { s2 };
    let s4 = if l.offset_extra_size != 0 { spec_field32(s3, hoff, l.offset_extra_size, m.extra) } else { s3 };
    let a5 = spec_field32(s4, hoff, l.offset_recovery_dtbo_size, m.recovery_dtbo);
    let b5 = spec_seek(a5, hoff + l.offset_recovery_dtbo_offset);
    let s5 = if l.offset_recovery_dtbo_size != 0 { spec_w(b5, spec_le64_bytes(m.recovery_dtbo_off)) } else { s4 };
    let s6 = if l.offset_dtb_size != 0 { spec_field32(s5, hoff, l.offset_dtb_size, m.dtb) } else { s5 };
    let s7 = if l.offset_header_size != 0 { spec_field32(s6, hoff, l.offset_header_size, l.total_size) } else { s6 };
    let s8 = if l.offset_vendor_ramdisk_table_size != 0 && m.table > 0 { spec_field32(s7, hoff, l.offset_vendor_ramdisk_table_size, m.table) } else { s7 };
    let s9 = if l.offset_bootconfig_size != 0 { spec_field32(s8, hoff, l.offset_bootconfig_size, m.bootconfig) } else { s8 };
    lemma_le32_bytes_len(m.extra);
    if l.offset_extra_size != 0 {
        let sk = spec_seek(s3, f);
        if !sk.overflow {
            lemma_w_fwd(sk, spec_le32_bytes(m.extra));
        }
        if l.offset_recovery_dtbo_size != 0 {
            lemma_field32_keeps(s4, hoff, l.offset_recovery_dtbo_size, m.recovery_dtbo, f, f + 4);
            if !b5.overflow {
                lemma_w_keeps(b5, spec_le64_bytes(m.recovery_dtbo_off), f, f + 4);
            }
            lemma_keeps_trans(s4, a5, b5, f, f + 4);
            lemma_keeps_trans(s4, b5, s5, f, f + 4);
        }
        lemma_keeps_trans(s4, s4, s5, f, f + 4);
        if l.offset_dtb_size != 0 {
            lemma_field32_keeps(s5, hoff, l.offset_dtb_size, m.dtb, f, f + 4);
        }
        lemma_keeps_trans(s4, s5, s6, f, f + 4);
        if l.offset_header_size != 0 {
            lemma_field32_keeps(s6, hoff, l.offset_header_size, l.total_size, f, f + 4);
        }
        lemma_keeps_trans(s4, s6, s7, f, f + 4);
        if l.offset_vendor_ramdisk_table_size != 0 {
            lemma_field32_keeps(s7, hoff, l.offset_vendor_ramdisk_table_size, m.table, f, f + 4);
        }
        lemma_keeps_trans(s4, s7, s8, f, f + 4);
        if l.offset_bootconfig_size != 0 {
            lemma_field32_keeps(s8, hoff, l.offset_bootconfig_size, m.bootconfig, f, f + 4);
        }
        lemma_keeps_trans(s4, s8, s9, f, f + 4);
    }
}

/// The header's recovery dtbo size field ends up holding the size the repack gives it.
#[verifier::rlimit(100)]
#[verifier::spinoff_prover]
proof fn lemma_fix_sizes_field_recovery_dtbo(img: &BootImage, s: OutState, hoff: int, k: u32, r: u32, m: MidSizes)
    requires
        hoff >= 0,
        spec_fields_apart(img.header.spec_layout()),
    ensures
        ({
            let l = img.header.spec_layout();
            let t = spec_fix_sizes(img, s, hoff, k, r, m);
            let f = hoff + l.offset_recovery_dtbo_size;
            l.offset_recovery_dtbo_size != 0 ==> (!t.overflow ==> t.buf.len() >= f + 4 && t.buf.subrange(f, f + 4) == spec_le32_bytes(m.recovery_dtbo))
        }),
{
    reveal(spec_fix_sizes);
    let l = img.header.spec_layout();
    let f = hoff + l.offset_recovery_dtbo_size;
    let s1 = spec_field32(s, hoff, l.offset_kernel_size, k);
    let s2 = if l.offset_ramdisk_size != 0 { spec_field32(s1, hoff, l.offset_ramdisk_size, r) } else { s1 };
    let s3 = if l.offset_second_size != 0 { spec_field32(s2, hoff, l.offset_second_size, m.second) } else { s2 };
    let s4 = if l.offset_extra_size != 0 { spec_field32(s3, hoff, l.offset_extra_size, m.extra) } else { s3 };
    let a5 = spec_field32(s4, hoff, l.offset_recovery_dtbo_size, m.recovery_dtbo);
    let b5 = spec_seek(a5, hoff + l.offset_recovery_dtbo_offset);
    let s5 = if l.offset_recovery_dtbo_size != 0 { spec_w(b5, spec_le64_bytes(m.recovery_dtbo_off)) } else { s4 };
    let s6 = if l.offset_dtb_size != 0 { spec_field32(s5, hoff, l.offset_dtb_size, m.dtb) } else { s5 };
    let s7 = if l.offset_header_size != 0 { spec_field32(s6, hoff, l.offset_header_size, l.total_size) } else { s6 };
    let s8 = if l.offset_vendor_ramdisk_table_size != 0 && m.table > 0 { spec_field32(s7, hoff, l.offset_vendor_ramdisk_table_size, m.table) } else { s7 };
    let s9 = if l.offset_bootconfig_size != 0 { spec_field32(s8, hoff, l.offset_bootconfig_size, m.bootconfig) } else { s8 };
    lemma_le32_bytes_len(m.recovery_dtbo);
    if l.offset_recovery_dtbo_size != 0 {
        let sk = spec_seek(s4, f);
        if !sk.overflow {
            lemma_w_fwd(sk, spec_le32_bytes(m.recovery_dtbo));
        }
        let w8 = spec_le64_bytes(m.recovery_dtbo_off);
        if !b5.overflow {
            lemma_w_keeps(b5, w8, f, f + 4);
        }
        lemma_keeps_trans(a5, b5, s5, f, f + 4);
        if l.offset_dtb_size != 0 {
            lemma_field32_keeps(s5, hoff, l.offset_dtb_size, m.dtb, f, f + 4);
        }
        lemma_keeps_trans(s5, s5, s6, f, f + 4);
        if l.offset_header_size != 0 {
            lemma_field32_keeps(s6, hoff, l.offset_header_size, l.total_size, f, f + 4);
        }
        lemma_keeps_trans(s5, s6, s7, f, f + 4);
        if l.offset_vendor_ramdisk_table_size != 0 {
            lemma_field32_keeps(s7, hoff, l.offset_vendor_ramdisk_table_size, m.table, f, f + 4);
        }
        lemma_keeps_trans(s5, s7, s8, f, f + 4);
        if l.offset_bootconfig_size != 0 {
            lemma_field32_keeps(s8, hoff, l.offset_bootconfig_size, m.bootconfig, f, f + 4);
        }
        lemma_keeps_trans(s5, s8, s9, f, f + 4);
    }
}

/// The header's dtb size field ends up holding the size the repack gives it.
#[verifier::rlimit(100)]
#[verifier::spinoff_prover]
proof fn lemma_fix_sizes_field_dtb(img: &BootImage, s: OutState, hoff: int, k: u32, r: u32, m: MidSizes)
    requires
        hoff >= 0,
        spec_fields_apart(img.header.spec_layout()),
    ensures
        ({
            let l = img.header.spec_layout();
            let t = spec_fix_sizes(img, s, hoff, k, r, m);
            let f = hoff + l.offset_dtb_size;
            l.offset_dtb_size != 0 ==> (!t.overflow ==> t.buf.len() >= f + 4 && t.buf.subrange(f, f + 4) == spec_le32_bytes(m.dtb))
        }),
{
    reveal(spec_fix_sizes);
    let l = img.header.spec_layout();
    let f = hoff + l.offset_dtb_size;
    let s1 = spec_field32(s, hoff, l.offset_kernel_size, k);
    let s2 = if l.offset_ramdisk_size != 0 { spec_field32(s1, hoff, l.offset_ramdisk_size, r) } else { s1 };
    let s3 = if l.offset_second_size != 0 { spec_field32(s2, hoff, l.offset_second_size, m.second) } else { s2 };
    let s4 = if l.offset_extra_size != 0 { spec_field32(s3, hoff, l.offset_extra_size, m.extra) } else { s3 };
    let a5 = spec_field32(s4, hoff, l.offset_recovery_dtbo_size, m.recovery_dtbo);
    let b5 = spec_seek(a5, hoff + l.offset_recovery_dtbo_offset);
    let s5 = if l.offset_recovery_dtbo_size != 0 { spec_w(b5, spec_le64_bytes(m.recovery_dtbo_off)) } else { s4 };
    let s6 = if l.offset_dtb_size != 0 { spec_field32(s5, hoff, l.offset_dtb_size, m.dtb) } else { s5 };
    let s7 = if l.offset_header_size != 0 { spec_field32(s6, hoff, l.offset_header_size, l.total_size) } else { s6 };
    let s8 = if l.offset_vendor_ramdisk_table_size != 0 && m.table > 0 { spec_field32(s7, hoff, l.offset_vendor_ramdisk_table_size, m.table) } else { s7 };
    let s9 = if l.offset_bootconfig_size != 0 { spec_field32(s8, hoff, l.offset_bootconfig_size, m.bootconfig) } else { s8 };
    lemma_le32_bytes_len(m.dtb);
    if l.offset_dtb_size != 0 {
        let sk = spec_seek(s5, f);
        if !sk.overflow {
            lemma_w_fwd(sk, spec_le32_bytes(m.dtb));
        }
        if l.offset_header_size != 0 {
            lemma_field32_keeps(s6, hoff, l.offset_header_size, l.total_size, f, f + 4);
        }
        lemma_keeps_trans(s6, s6, s7, f, f + 4);
        if l.offset_vendor_ramdisk_table_size != 0 {
            lemma_field32_keeps(s7, hoff, l.offset_vendor_ramdisk_table_size, m.table, f, f + 4);
        }
        lemma_keeps_trans(s6, s7, s8, f, f + 4);
        if l.offset_bootconfig_size != 0 {
            lemma_field32_keeps(s8, hoff, l.offset_bootconfig_size, m.bootconfig, f, f + 4);
        }
        lemma_keeps_trans(s6, s8, s9, f, f + 4);
    }
}

/// The header's bootconfig size field ends up holding the size the repack gives it.
#[verifier::rlimit(100)]
#[verifier::spinoff_prover]
proof fn lemma_fix_sizes_field_bootconfig(img: &BootImage, s: OutState, hoff: int, k: u32, r: u32, m: MidSizes)
    requires
        hoff >= 0,
        spec_fields_apart(img.header.spec_layout()),
    ensures
        ({
            let l = img.header.spec_layout();
            let t = spec_fix_sizes(img, s, hoff, k, r, m);
            let f = hoff + l.offset_bootconfig_size;
            l.offset_bootconfig_size != 0 ==> (!t.overflow ==> t.buf.len() >= f + 4 && t.buf.subrange(f, f + 4) == spec_le32_bytes(m.bootconfig))
        }),
{
    reveal(spec_fix_sizes);
    let l = img.header.spec_layout();
    let f = hoff + l.offset_bootconfig_size;
    let s1 = spec_field32(s, hoff, l.offset_kernel_size, k);
    let s2 = if l.offset_ramdisk_size != 0 { spec_field32(s1, hoff, l.offset_ramdisk_size, r) } else { s1 };
    let s3 = if l.offset_second_size != 0 { spec_field32(s2, hoff, l.offset_second_size, m.second) } else { s2 };
    let s4 = if l.offset_extra_size != 0 { spec_field32(s3, hoff, l.offset_extra_size, m.extra) } else { s3 };
    let a5 = spec_field32(s4, hoff, l.offset_recovery_dtbo_size, m.recovery_dtbo);
    let b5 = spec_seek(a5, hoff + l.offset_recovery_dtbo_offset);
    let s5 = if l.offset_recovery_dtbo_size != 0 { spec_w(b5, spec_le64_bytes(m.recovery_dtbo_off)) } else { s4 };
    let s6 = if l.offset_dtb_size != 0 { spec_field32(s5, hoff, l.offset_dtb_size, m.dtb) } else { s5 };
    let s7 = if l.offset_header_size != 0 { spec_field32(s6, hoff, l.offset_header_size, l.total_size) } else { s6 };
    let s8 = if l.offset_vendor_ramdisk_table_size != 0 && m.table > 0 { spec_field32(s7, hoff, l.offset_vendor_ramdisk_table_size, m.table) } else { s7 };
    let s9 = if l.offset_bootconfig_size != 0 { spec_field32(s8, hoff, l.offset_bootconfig_size, m.bootconfig) } else { s8 };
    lemma_le32_bytes_len(m.bootconfig);
    if l.offset_bootconfig_size != 0 {
        let sk = spec_seek(s8, f);
        if !sk.overflow {
            lemma_w_fwd(sk, spec_le32_bytes(m.bootconfig));
        }
    }
}

/// The id and wrapper fix-ups after the size fields keep a header field
/// that lies apart from the id.
#[verifier::rlimit(40)]
proof fn lemma_fix_header_tail(img: &BootImage, s: OutState, hoff: int, k: u32, r: u32, m: MidSizes, size: int, f: int, n: int)
    requires
        hoff >= 0,
        f >= hoff,
        img.header.spec_layout().offset_id != 0 ==> (hoff + img.header.spec_layout().offset_id + BOOT_ID_SIZE <= f
            || f + n <= hoff + img.header.spec_layout().offset_id),
        img.is_dhtb ==> hoff >= 52,
        img.is_blob ==> hoff >= 76,
    ensures
        spec_keeps(spec_fix_sizes(img, s, hoff, k, r, m), spec_fix_header(img, s, hoff, k, r, m, size), f, f + n),
{
    reveal(spec_fix_header);
    let l = img.header.spec_layout();
    let s9 = spec_fix_sizes(img, s, hoff, k, r, m);
    let idb = spec_new_id(img.sha256_id, k, r, m);
    let ia = spec_seek(s9, hoff + l.offset_id);
    let s10 = if l.offset_id != 0 { spec_w(ia, idb) } else { s9 };
    if l.offset_id != 0 {
        if !ia.overflow {
            lemma_w_keeps(ia, idb, f, f + n);
        }
        lemma_keeps_trans(s9, ia, s10, f, f + n);
    }
    let t = spec_fix_header(img, s, hoff, k, r, m, size);
    if img.is_dhtb {
        let d = spec_seek(s10, 48);
        if !d.overflow {
            lemma_w_keeps(d, spec_le32_bytes((size + 20) as u32), f, f + n);
        }
        lemma_keeps_trans(s10, d, t, f, f + n);
    } else if img.is_blob {
        let d = spec_seek(s10, 72);
        if !d.overflow {
            lemma_w_keeps(d, spec_le32_bytes(size as u32), f, f + n);
        }
        lemma_keeps_trans(s10, d, t, f, f + n);
    }
    lemma_keeps_trans(s9, s10, t, f, f + n);
}

/// Where the mid parts put the second: past the start, at a page
/// boundary from `hoff`, before the end; and the size they report for it.
#[verifier::rlimit(60)]
#[verifier::spinoff_prover]
proof fn lemma_mid_second(img: &BootImage, o: PatchOptsModel, s: OutState, hoff: int) -> (p: int)
    requires
        s.pos >= 0,
        img.header.spec_page_size() > 0,
    ensures
        spec_mid_phase(img, o, s, hoff) matches Ok((t, m)) ==> (!t.overflow ==> {
            let part = spec_plain(o.replace_second, img.blocks@.second);
            &&& spec_fwd(s, t)
            &&& s.pos <= p
            &&& p == s.pos
            &&& p + part.len() <= t.pos
            &&& t.buf.len() >= p + part.len()
            &&& t.buf.subrange(p, p + part.len()) == part
            &&& m.second == part.len() as u32
        }),
{
    reveal(spec_mid_phase);
    let b = img.blocks@;
    let page = img.header.spec_page_size() as int;
    let sb = spec_plain(o.replace_second, b.second);
    let eb = spec_plain(o.replace_extra, b.extra);
    let rb = spec_plain(o.replace_recovery_dtbo, b.recovery_dtbo);
    let db = spec_plain(o.replace_dtb, b.dtb);
    let bb = spec_plain(o.replace_bootconfig, b.bootconfig);
    let part = sb;
    let s1 = spec_align_rel(spec_w(s, sb), hoff, page);
    let s2 = spec_align_rel(spec_w(s1, eb), hoff, page);
    let s3 = spec_align_rel(spec_w(s2, rb), hoff, page);
    let s4 = spec_align_rel(spec_w(s3, db), hoff, page);
    let s5 = match b.signature {
        Some(sig) => spec_align_rel(spec_w(s4, sig), hoff, page),
        None => s4,
    };
    let s6 = match spec_source_table(b) {
        Some(ents) => spec_align_rel(spec_w(s5, spec_vendor_table(ents)), hoff, page),
        None => s5,
    };
    let s7 = spec_align_rel(spec_w(s6, bb), hoff, page);
    let p = s.pos;
    let w = spec_w(s, part);
    if !s.overflow {
        lemma_w_fwd(s, part);
    }
    let e = p + part.len();
    let after = s1;
    if !w.overflow {
        lemma_align_rel_fwd(w, hoff, page, p, e);
    }
    lemma_fwd_trans(s, w, after);
    if !s1.overflow {
        lemma_w_align_fwd(s1, eb, hoff, page, p, e);
    }
    lemma_fwd_trans(w, s1, s2);
    lemma_keeps_trans(w, s1, s2, p, e);
    if !s2.overflow {
        lemma_w_align_fwd(s2, rb, hoff, page, p, e);
    }
    lemma_fwd_trans(w, s2, s3);
    lemma_keeps_trans(w, s2, s3, p, e);
    if !s3.overflow {
        lemma_w_align_fwd(s3, db, hoff, page, p, e);
    }
    lemma_fwd_trans(w, s3, s4);
    lemma_keeps_trans(w, s3, s4, p, e);
    if let Some(sig) = b.signature {
        if !s4.overflow {
            lemma_w_align_fwd(s4, sig, hoff, page, p, e);
        }
    }
    lemma_fwd_trans(w, s4, s5);
    lemma_keeps_trans(w, s4, s5, p, e);
    if let Some(ents) = spec_source_table(b) {
        if !s5.overflow {
            lemma_w_align_fwd(s5, spec_vendor_table(ents), hoff, page, p, e);
        }
    }
    lemma_fwd_trans(w, s5, s6);
    lemma_keeps_trans(w, s5, s6, p, e);
    if !s6.overflow {
        lemma_w_align_fwd(s6, bb, hoff, page, p, e);
    }
    lemma_fwd_trans(w, s6, s7);
    lemma_keeps_trans(w, s6, s7, p, e);
    lemma_fwd_trans(s, w, s7);
    p
}

/// Where the mid parts put the extra: past the start, at a page
/// boundary from `hoff`, before the end; and the size they report for it.
#[verifier::rlimit(60)]
#[verifier::spinoff_prover]
proof fn lemma_mid_extra(img: &BootImage, o: PatchOptsModel, s: OutState, hoff: int) -> (p: int)
    requires
        s.pos >= 0,
        img.header.spec_page_size() > 0,
    ensures
        spec_mid_phase(img, o, s, hoff) matches Ok((t, m)) ==> (!t.overflow ==> {
            let part = spec_plain(o.replace_extra, img.blocks@.extra);
            &&& spec_fwd(s, t)
            &&& s.pos <= p
            &&& (p - hoff) % (img.header.spec_page_size() as int) == 0
            &&& p + part.len() <= t.pos
            &&& t.buf.len() >= p + part.len()
            &&& t.buf.subrange(p, p + part.len()) == part
            &&& m.extra == part.len() as u32
        }),
{
    reveal(spec_mid_phase);
    let b = img.blocks@;
    let page = img.header.spec_page_size() as int;
    let sb = spec_plain(o.replace_second, b.second);
    let eb = spec_plain(o.replace_extra, b.extra);
    let rb = spec_plain(o.replace_recovery_dtbo, b.recovery_dtbo);
    let db = spec_plain(o.replace_dtb, b.dtb);
    let bb = spec_plain(o.replace_bootconfig, b.bootconfig);
    let part = eb;
    let s1 = spec_align_rel(spec_w(s, sb), hoff, page);
    let s2 = spec_align_rel(spec_w(s1, eb), hoff, page);
    let s3 = spec_align_rel(spec_w(s2, rb), hoff, page);
    let s4 = spec_align_rel(spec_w(s3, db), hoff, page);
    let s5 = match b.signature {
        Some(sig) => spec_align_rel(spec_w(s4, sig), hoff, page),
        None => s4,
    };
    let s6 = match spec_source_table(b) {
        Some(ents) => spec_align_rel(spec_w(s5, spec_vendor_table(ents)), hoff, page),
        None => s5,
    };
    let s7 = spec_align_rel(spec_w(s6, bb), hoff, page);
    if !s.overflow {
        lemma_w_align_fwd(s, sb, hoff, page, 0, 0);
    }
    let p = s1.pos;
    let w = spec_w(s1, part);
    if !s1.overflow {
        lemma_w_fwd(s1, part);
    }
    let e = p + part.len();
    let after = s2;
    if !w.overflow {
        lemma_align_rel_fwd(w, hoff, page, p, e);
    }
    lemma_fwd_trans(s1, w, after);
    if !s2.overflow {
        lemma_w_align_fwd(s2, rb, hoff, page, p, e);
    }
    lemma_fwd_trans(w, s2, s3);
    lemma_keeps_trans(w, s2, s3, p, e);
    if !s3.overflow {
        lemma_w_align_fwd(s3, db, hoff, page, p, e);
    }
    lemma_fwd_trans(w, s3, s4);
    lemma_keeps_trans(w, s3, s4, p, e);
    if let Some(sig) = b.signature {
        if !s4.overflow {
            lemma_w_align_fwd(s4, sig, hoff, page, p, e);
        }
    }
    lemma_fwd_trans(w, s4, s5);
    lemma_keeps_trans(w, s4, s5, p, e);
    if let Some(ents) = spec_source_table(b) {
        if !s5.overflow {
            lemma_w_align_fwd(s5, spec_vendor_table(ents), hoff, page, p, e);
        }
    }
    lemma_fwd_trans(w, s5, s6);
    lemma_keeps_trans(w, s5, s6, p, e);
    if !s6.overflow {
        lemma_w_align_fwd(s6, bb, hoff, page, p, e);
    }
    lemma_fwd_trans(w, s6, s7);
    lemma_keeps_trans(w, s6, s7, p, e);
    lemma_fwd_trans(s, s1, s7);
    p
}

/// Where the mid parts put the recovery dtbo: past the start, at a page
/// boundary from `hoff`, before the end; and the size they report for it.
#[verifier::rlimit(60)]
#[verifier::spinoff_prover]
proof fn lemma_mid_recovery_dtbo(img: &BootImage, o: PatchOptsModel, s: OutState, hoff: int) -> (p: int)
    requires
        s.pos >= 0,
        img.header.spec_page_size() > 0,
    ensures
        spec_mid_phase(img, o, s, hoff) matches Ok((t, m)) ==> (!t.overflow ==> {
            let part = spec_plain(o.replace_recovery_dtbo, img.blocks@.recovery_dtbo);
            &&& spec_fwd(s, t)
            &&& s.pos <= p
            &&& (p - hoff) % (img.header.spec_page_size() as int) == 0
            &&& p + part.len() <= t.pos
            &&& t.buf.len() >= p + part.len()
            &&& t.buf.subrange(p, p + part.len()) == part
            &&& m.recovery_dtbo == part.len() as u32
        }),
{
    reveal(spec_mid_phase);
    let b = img.blocks@;
    let page = img.header.spec_page_size() as int;
    let sb = spec_plain(o.replace_second, b.second);
    let eb = spec_plain(o.replace_extra, b.extra);
    let rb = spec_plain(o.replace_recovery_dtbo, b.recovery_dtbo);
    let db = spec_plain(o.replace_dtb, b.dtb);
    let bb = spec_plain(o.replace_bootconfig, b.bootconfig);
    let part = rb;
    let s1 = spec_align_rel(spec_w(s, sb), hoff, page);
    let s2 = spec_align_rel(spec_w(s1, eb), hoff, page);
    let s3 = spec_align_rel(spec_w(s2, rb), hoff, page);
    let s4 = spec_align_rel(spec_w(s3, db), hoff, page);
    let s5 = match b.signature {
        Some(sig) => spec_align_rel(spec_w(s4, sig), hoff, page),
        None => s4,
    };
    let s6 = match spec_source_table(b) {
        Some(ents) => spec_align_rel(spec_w(s5, spec_vendor_table(ents)), hoff, page),
        None => s5,
    };
    let s7 = spec_align_rel(spec_w(s6, bb), hoff, page);
    if !s.overflow {
        lemma_w_align_fwd(s, sb, hoff, page, 0, 0);
    }
    if !s1.overflow {
        lemma_w_align_fwd(s1, eb, hoff, page, 0, 0);
    }
    lemma_fwd_trans(s, s1, s2);
    let p = s2.pos;
    let w = spec_w(s2, part);
    if !s2.overflow {
        lemma_w_fwd(s2, part);
    }
    let e = p + part.len();
    let after = s3;
    if !w.overflow {
        lemma_align_rel_fwd(w, hoff, page, p, e);
    }
    lemma_fwd_trans(s2, w, after);
    if !s3.overflow {
        lemma_w_align_fwd(s3, db, hoff, page, p, e);
    }
    lemma_fwd_trans(w, s3, s4);
    lemma_keeps_trans(w, s3, s4, p, e);
    if let Some(sig) = b.signature {
        if !s4.overflow {
            lemma_w_align_fwd(s4, sig, hoff, page, p, e);
        }
    }
    lemma_fwd_trans(w, s4, s5);
    lemma_keeps_trans(w, s4, s5, p, e);
    if let Some(ents) = spec_source_table(b) {
        if !s5.overflow {
            lemma_w_align_fwd(s5, spec_vendor_table(ents), hoff, page, p, e);
        }
    }
    lemma_fwd_trans(w, s5, s6);
    lemma_keeps_trans(w, s5, s6, p, e);
    if !s6.overflow {
        lemma_w_align_fwd(s6, bb, hoff, page, p, e);
    }
    lemma_fwd_trans(w, s6, s7);
    lemma_keeps_trans(w, s6, s7, p, e);
    lemma_fwd_trans(s, s2, s7);
    p
}

/// Where the mid parts put the bootconfig: past the start, at a page
/// boundary from `hoff`, before the end; and the size they report for it.
#[verifier::rlimit(60)]
#[verifier::spinoff_prover]
proof fn lemma_mid_bootconfig(img: &BootImage, o: PatchOptsModel, s: OutState, hoff: int) -> (p: int)
    requires
        s.pos >= 0,
        img.header.spec_page_size() > 0,
    ensures
        spec_mid_phase(img, o, s, hoff) matches Ok((t, m)) ==> (!t.overflow ==> {
            let part = spec_plain(o.replace_bootconfig, img.blocks@.bootconfig);
            &&& spec_fwd(s, t)
            &&& s.pos <= p
            &&& (p - hoff) % (img.header.spec_page_size() as int) == 0
            &&& p + part.len() <= t.pos
            &&& t.buf.len() >= p + part.len()
            &&& t.buf.subrange(p, p + part.len()) == part
            &&& m.bootconfig == part.len() as u32
        }),
{
    reveal(spec_mid_phase);
    let b = img.blocks@;
    let page = img.header.spec_page_size() as int;
    let sb = spec_plain(o.replace_second, b.second);
    let eb = spec_plain(o.replace_extra, b.extra);
    let rb = spec_plain(o.replace_recovery_dtbo, b.recovery_dtbo);
    let db = spec_plain(o.replace_dtb, b.dtb);
    let bb = spec_plain(o.replace_bootconfig, b.bootconfig);
    let part = bb;
    let s1 = spec_align_rel(spec_w(s, sb), hoff, page);
    let s2 = spec_align_rel(spec_w(s1, eb), hoff, page);
    let s3 = spec_align_rel(spec_w(s2, rb), hoff, page);
    let s4 = spec_align_rel(spec_w(s3, db), hoff, page);
    let s5 = match b.signature {
        Some(sig) => spec_align_rel(spec_w(s4, sig), hoff, page),
        None => s4,
    };
    let s6 = match spec_source_table(b) {
        Some(ents) => spec_align_rel(spec_w(s5, spec_vendor_table(ents)), hoff, page),
        None => s5,
    };
    let s7 = spec_align_rel(spec_w(s6, bb), hoff, page);
    if !s.overflow {
        lemma_w_align_fwd(s, sb, hoff, page, 0, 0);
    }
    if !s1.overflow {
        lemma_w_align_fwd(s1, eb, hoff, page, 0, 0);
    }
    lemma_fwd_trans(s, s1, s2);
    if !s2.overflow {
        lemma_w_align_fwd(s2, rb, hoff, page, 0, 0);
    }
    lemma_fwd_trans(s, s2, s3);
    if !s3.overflow {
        lemma_w_align_fwd(s3, db, hoff, page, 0, 0);
    }
    lemma_fwd_trans(s, s3, s4);
    if let Some(sig) = b.signature {
        if !s4.overflow {
            lemma_w_align_fwd(s4, sig, hoff, page, 0, 0);
        }
    }
    lemma_fwd_trans(s, s4, s5);
    if let Some(ents) = spec_source_table(b) {
        if !s5.overflow {
            lemma_w_align_fwd(s5, spec_vendor_table(ents), hoff, page, 0, 0);
        }
    }
    lemma_fwd_trans(s, s5, s6);
    let p = s6.pos;
    let w = spec_w(s6, part);
    if !s6.overflow {
        lemma_w_fwd(s6, part);
    }
    let e = p + part.len();
    let after = s7;
    if !w.overflow {
        lemma_align_rel_fwd(w, hoff, page, p, e);
    }
    lemma_fwd_trans(s6, w, after);
    lemma_fwd_trans(s, s6, s7);
    p
}



/// Replacing the second puts exactly the replacement into the repacked
/// image, past the header, and sets the header's second size field to its
/// length.
#[verifier::spinoff_prover]
pub proof fn law_patch_writes_replaced_second(img: &BootImage, o: PatchOptsModel, x: Seq<u8>)
    requires
        spec_patch_source_ok(img),
        exists|k: crate::layouts::LayoutKind| img.header.spec_layout() == crate::layouts::spec_layout(k),
        img.header.spec_layout().offset_second_size != 0,
        o.replace_second == Some(x),
    ensures
        spec_patch(img, o) matches Ok(out) ==> {
            let hoff = spec_pre_header(img).len() as int;
            &&& crate::bytes::spec_le32(out, hoff + img.header.spec_layout().offset_second_size) == x.len() as u32
            &&& exists|p: int|
                hoff + img.header.spec_hdr_space() <= p && p + x.len() <= out.len()
                    && #[trigger] out.subrange(p, p + x.len()) == x
        },
{
    let l = img.header.spec_layout();
    let kind = choose|k: crate::layouts::LayoutKind| img.header.spec_layout() == crate::layouts::spec_layout(k);
    lemma_known_layout(kind);
    img.header.lemma_hdr_space();
    lemma_head_pos(img, o);
    if let Ok(out) = spec_patch(img, o) {
        let (s0, hoff) = spec_head(img, o)->Ok_0;
        let (s1, k) = spec_kernel_phase(img, o, s0, hoff)->Ok_0;
        let (s2, r) = spec_ramdisk_phase(img, o, s1, hoff)->Ok_0;
        let (s3, m) = spec_mid_phase(img, o, s2, hoff)->Ok_0;
        let s4 = spec_avb_phase(img, s3, hoff)->Ok_0;
        let size = spec_img_size(s3.pos, hoff);
        let s5 = spec_fix_header(img, s4, hoff, k, r, m, size);
        assert(!s5.overflow && out == s5.buf);
        reveal(spec_head);
        assert(hoff >= 0);
        lemma_fix_header_grows(img, s4, hoff, k, r, m, size);
        if s3.overflow {
            lemma_phases_sticky(img, o, s3, hoff);
        }
        if s2.overflow {
            lemma_phases_sticky(img, o, s2, hoff);
        }
        if s1.overflow {
            lemma_phases_sticky(img, o, s1, hoff);
        }
        if s0.overflow {
            lemma_phases_sticky(img, o, s0, hoff);
        }
        assert(!s0.overflow);
        lemma_kernel_ramdisk_fwd(img, o, s0, hoff, 0, 0);
        lemma_kernel_ramdisk_fwd(img, o, s1, hoff, 0, 0);
        let p = lemma_mid_second(img, o, s2, hoff);
        let e = p + x.len();
        assert(s3.buf.subrange(p, e) == x);
        lemma_avb_keeps(img, s3, hoff, p, e);
        lemma_fix_header_keeps(img, s4, hoff, k, r, m, size, p, e);
        lemma_keeps_trans(s3, s4, s5, p, e);
        assert(out.subrange(p, e) == x);
        let f = hoff + l.offset_second_size;
        lemma_fix_sizes_field_second(img, s4, hoff, k, r, m);
        lemma_fix_sizes_grows(img, s4, hoff, k, r, m);
        lemma_fix_header_tail(img, s4, hoff, k, r, m, size, f, 4);
        let s9 = spec_fix_sizes(img, s4, hoff, k, r, m);
        assert(!s9.overflow);
        let fb = out.subrange(f, f + 4);
        assert(fb == spec_le32_bytes(m.second));
        crate::bytes::lemma_le32_roundtrip(m.second);
        assert(fb[0] == out[f] && fb[1] == out[f + 1] && fb[2] == out[f + 2] && fb[3] == out[f + 3]);
        assert(crate::bytes::spec_le32(out, f) == crate::bytes::spec_le32(fb, 0));
    }
}

/// Replacing the extra puts exactly the replacement into the repacked
/// image, past the header, and sets the header's extra size field to its
/// length.
#[verifier::spinoff_prover]
pub proof fn law_patch_writes_replaced_extra(img: &BootImage, o: PatchOptsModel, x: Seq<u8>)
    requires
        spec_patch_source_ok(img),
        exists|k: crate::layouts::LayoutKind| img.header.spec_layout() == crate::layouts::spec_layout(k),
        img.header.spec_layout().offset_extra_size != 0,
        o.replace_extra == Some(x),
    ensures
        spec_patch(img, o) matches Ok(out) ==> {
            let hoff = spec_pre_header(img).len() as int;
            &&& crate::bytes::spec_le32(out, hoff + img.header.spec_layout().offset_extra_size) == x.len() as u32
            &&& exists|p: int|
                hoff + img.header.spec_hdr_space() <= p && p + x.len() <= out.len()
                    && #[trigger] out.subrange(p, p + x.len()) == x
        },
{
    let l = img.header.spec_layout();
    let kind = choose|k: crate::layouts::LayoutKind| img.header.spec_layout() == crate::layouts::spec_layout(k);
    lemma_known_layout(kind);
    img.header.lemma_hdr_space();
    lemma_head_pos(img, o);
    if let Ok(out) = spec_patch(img, o) {
        let (s0, hoff) = spec_head(img, o)->Ok_0;
        let (s1, k) = spec_kernel_phase(img, o, s0, hoff)->Ok_0;
        let (s2, r) = spec_ramdisk_phase(img, o, s1, hoff)->Ok_0;
        let (s3, m) = spec_mid_phase(img, o, s2, hoff)->Ok_0;
        let s4 = spec_avb_phase(img, s3, hoff)->Ok_0;
        let size = spec_img_size(s3.pos, hoff);
        let s5 = spec_fix_header(img, s4, hoff, k, r, m, size);
        assert(!s5.overflow && out == s5.buf);
        reveal(spec_head);
        assert(hoff >= 0);
        lemma_fix_header_grows(img, s4, hoff, k, r, m, size);
        if s3.overflow {
            lemma_phases_sticky(img, o, s3, hoff);
        }
        if s2.overflow {
            lemma_phases_sticky(img, o, s2, hoff);
        }
        if s1.overflow {
            lemma_phases_sticky(img, o, s1, hoff);
        }
        if s0.overflow {
            lemma_phases_sticky(img, o, s0, hoff);
        }
        assert(!s0.overflow);
        lemma_kernel_ramdisk_fwd(img, o, s0, hoff, 0, 0);
        lemma_kernel_ramdisk_fwd(img, o, s1, hoff, 0, 0);
        let p = lemma_mid_extra(img, o, s2, hoff);
        let e = p + x.len();
        assert(s3.buf.subrange(p, e) == x);
        lemma_avb_keeps(img, s3, hoff, p, e);
        lemma_fix_header_keeps(img, s4, hoff, k, r, m, size, p, e);
        lemma_keeps_trans(s3, s4, s5, p, e);
        assert(out.subrange(p, e) == x);
        let f = hoff + l.offset_extra_size;
        lemma_fix_sizes_field_extra(img, s4, hoff, k, r, m);
        lemma_fix_sizes_grows(img, s4, hoff, k, r, m);
        lemma_fix_header_tail(img, s4, hoff, k, r, m, size, f, 4);
        let s9 = spec_fix_sizes(img, s4, hoff, k, r, m);
        assert(!s9.overflow);
        let fb = out.subrange(f, f + 4);
        assert(fb == spec_le32_bytes(m.extra));
        crate::bytes::lemma_le32_roundtrip(m.extra);
        assert(fb[0] == out[f] && fb[1] == out[f + 1] && fb[2] == out[f + 2] && fb[3] == out[f + 3]);
        assert(crate::bytes::spec_le32(out, f) == crate::bytes::spec_le32(fb, 0));
    }
}

/// Replacing the recovery DTBO puts exactly the replacement into the repacked
/// image, past the header, and sets the header's recovery DTBO size field to its
/// length.
#[verifier::spinoff_prover]
pub proof fn law_patch_writes_replaced_recovery_dtbo(img: &BootImage, o: PatchOptsModel, x: Seq<u8>)
    requires
        spec_patch_source_ok(img),
        exists|k: crate::layouts::LayoutKind| img.header.spec_layout() == crate::layouts::spec_layout(k),
        img.header.spec_layout().offset_recovery_dtbo_size != 0,
        o.replace_recovery_dtbo == Some(x),
    ensures
        spec_patch(img, o) matches Ok(out) ==> {
            let hoff = spec_pre_header(img).len() as int;
            &&& crate::bytes::spec_le32(out, hoff + img.header.spec_layout().offset_recovery_dtbo_size) == x.len() as u32
            &&& exists|p: int|
                hoff + img.header.spec_hdr_space() <= p && p + x.len() <= out.len()
                    && #[trigger] out.subrange(p, p + x.len()) == x
        },
{
    let l = img.header.spec_layout();
    let kind = choose|k: crate::layouts::LayoutKind| img.header.spec_layout() == crate::layouts::spec_layout(k);
    lemma_known_layout(kind);
    img.header.lemma_hdr_space();
    lemma_head_pos(img, o);
    if let Ok(out) = spec_patch(img, o) {
        let (s0, hoff) = spec_head(img, o)->Ok_0;
        let (s1, k) = spec_kernel_phase(img, o, s0, hoff)->Ok_0;
        let (s2, r) = spec_ramdisk_phase(img, o, s1, hoff)->Ok_0;
        let (s3, m) = spec_mid_phase(img, o, s2, hoff)->Ok_0;
        let s4 = spec_avb_phase(img, s3, hoff)->Ok_0;
        let size = spec_img_size(s3.pos, hoff);
        let s5 = spec_fix_header(img, s4, hoff, k, r, m, size);
        assert(!s5.overflow && out == s5.buf);
        reveal(spec_head);
        assert(hoff >= 0);
        lemma_fix_header_grows(img, s4, hoff, k, r, m, size);
        if s3.overflow {
            lemma_phases_sticky(img, o, s3, hoff);
        }
        if s2.overflow {
            lemma_phases_sticky(img, o, s2, hoff);
        }
        if s1.overflow {
            lemma_phases_sticky(img, o, s1, hoff);
        }
        if s0.overflow {
            lemma_phases_sticky(img, o, s0, hoff);
        }
        assert(!s0.overflow);
        lemma_kernel_ramdisk_fwd(img, o, s0, hoff, 0, 0);
        lemma_kernel_ramdisk_fwd(img, o, s1, hoff, 0, 0);
        let p = lemma_mid_recovery_dtbo(img, o, s2, hoff);
        let e = p + x.len();
        assert(s3.buf.subrange(p, e) == x);
        lemma_avb_keeps(img, s3, hoff, p, e);
        lemma_fix_header_keeps(img, s4, hoff, k, r, m, size, p, e);
        lemma_keeps_trans(s3, s4, s5, p, e);
        assert(out.subrange(p, e) == x);
        let f = hoff + l.offset_recovery_dtbo_size;
        lemma_fix_sizes_field_recovery_dtbo(img, s4, hoff, k, r, m);
        lemma_fix_sizes_grows(img, s4, hoff, k, r, m);
        lemma_fix_header_tail(img, s4, hoff, k, r, m, size, f, 4);
        let s9 = spec_fix_sizes(img, s4, hoff, k, r, m);
        assert(!s9.overflow);
        let fb = out.subrange(f, f + 4);
        assert(fb == spec_le32_bytes(m.recovery_dtbo));
        crate::bytes::lemma_le32_roundtrip(m.recovery_dtbo);
        assert(fb[0] == out[f] && fb[1] == out[f + 1] && fb[2] == out[f + 2] && fb[3] == out[f + 3]);
        assert(crate::bytes::spec_le32(out, f) == crate::bytes::spec_le32(fb, 0));
    }
}

/// Replacing the bootconfig puts exactly the replacement into the repacked
/// image, past the header, and sets the header's bootconfig size field to its
/// length.
#[verifier::spinoff_prover]
pub proof fn law_patch_writes_replaced_bootconfig(img: &BootImage, o: PatchOptsModel, x: Seq<u8>)
    requires
        spec_patch_source_ok(img),
        exists|k: crate::layouts::LayoutKind| img.header.spec_layout() == crate::layouts::spec_layout(k),
        img.header.spec_layout().offset_bootconfig_size != 0,
        o.replace_bootconfig == Some(x),
    ensures
        spec_patch(img, o) matches Ok(out) ==> {
            let hoff = spec_pre_header(img).len() as int;
            &&& crate::bytes::spec_le32(out, hoff + img.header.spec_layout().offset_bootconfig_size) == x.len() as u32
            &&& exists|p: int|
                hoff + img.header.spec_hdr_space() <= p && p + x.len() <= out.len()
                    && #[trigger] out.subrange(p, p + x.len()) == x
        },
{
    let l = img.header.spec_layout();
    let kind = choose|k: crate::layouts::LayoutKind| img.header.spec_layout() == crate::layouts::spec_layout(k);
    lemma_known_layout(kind);
    img.header.lemma_hdr_space();
    lemma_head_pos(img, o);
    if let Ok(out) = spec_patch(img, o) {
        let (s0, hoff) = spec_head(img, o)->Ok_0;
        let (s1, k) = spec_kernel_phase(img, o, s0, hoff)->Ok_0;
        let (s2, r) = spec_ramdisk_phase(img, o, s1, hoff)->Ok_0;
        let (s3, m) = spec_mid_phase(img, o, s2, hoff)->Ok_0;
        let s4 = spec_avb_phase(img, s3, hoff)->Ok_0;
        let size = spec_img_size(s3.pos, hoff);
        let s5 = spec_fix_header(img, s4, hoff, k, r, m, size);
        assert(!s5.overflow && out == s5.buf);
        reveal(spec_head);
        assert(hoff >= 0);
        lemma_fix_header_grows(img, s4, hoff, k, r, m, size);
        if s3.overflow {
            lemma_phases_sticky(img, o, s3, hoff);
        }
        if s2.overflow {
            lemma_phases_sticky(img, o, s2, hoff);
        }
        if s1.overflow {
            lemma_phases_sticky(img, o, s1, hoff);
        }
        if s0.overflow {
            lemma_phases_sticky(img, o, s0, hoff);
        }
        assert(!s0.overflow);
        lemma_kernel_ramdisk_fwd(img, o, s0, hoff, 0, 0);
        lemma_kernel_ramdisk_fwd(img, o, s1, hoff, 0, 0);
        let p = lemma_mid_bootconfig(img, o, s2, hoff);
        let e = p + x.len();
        assert(s3.buf.subrange(p, e) == x);
        lemma_avb_keeps(img, s3, hoff, p, e);
        lemma_fix_header_keeps(img, s4, hoff, k, r, m, size, p, e);
        lemma_keeps_trans(s3, s4, s5, p, e);
        assert(out.subrange(p, e) == x);
        let f = hoff + l.offset_bootconfig_size;
        lemma_fix_sizes_field_bootconfig(img, s4, hoff, k, r, m);
        lemma_fix_sizes_grows(img, s4, hoff, k, r, m);
        lemma_fix_header_tail(img, s4, hoff, k, r, m, size, f, 4);
        let s9 = spec_fix_sizes(img, s4, hoff, k, r, m);
        assert(!s9.overflow);
        let fb = out.subrange(f, f + 4);
        assert(fb == spec_le32_bytes(m.bootconfig));
        crate::bytes::lemma_le32_roundtrip(m.bootconfig);
        assert(fb[0] == out[f] && fb[1] == out[f + 1] && fb[2] == out[f + 2] && fb[3] == out[f + 3]);
        assert(crate::bytes::spec_le32(out, f) == crate::bytes::spec_le32(fb, 0));
    }
}


/// The format of the source ramdisk; unknown where there is none.
pub open spec fn spec_ramdisk_format(img: &BootImage) -> CompressFormat {
    match img.blocks@.ramdisk {
        Some(rr) => rr.compress_format,
        None => CompressFormat::UNKNOWN,
    }
}

/// The bytes stored for a replaced kernel or ramdisk `x` whose source part
/// is in `fmt`: `x` compressed in `fmt` where `fmt` is a compressed format,
/// `x` is not compressed itself and compression is not turned off; else `x`
/// as it is.
#[verifier::opaque]
pub open spec fn spec_stored_replacement(o: PatchOptsModel, x: Seq<u8>, fmt: CompressFormat) -> Seq<u8> {
    if !o.no_compress && !spec_is_compressed(spec_parse_compress_format(x)) && spec_is_compressed(fmt) {
        spec_compressed(fmt, x)->Some_0
    } else {
        x
    }
}

/// The kernel phase writes the kernel bytes then its DTB at the position.
#[verifier::spinoff_prover]
proof fn lemma_kernel_data(img: &BootImage, o: PatchOptsModel, s: OutState, hoff: int, x: Seq<u8>)
    requires
        s.pos >= 0,
        img.header.spec_page_size() > 0,
        o.replace_kernel == Some(x),
    ensures
        spec_kernel_phase(img, o, s, hoff) matches Ok((t, k)) ==> (!t.overflow ==> {
            let fmt = match img.blocks@.kernel {
                Some(kk) => kk.compress_format,
                None => CompressFormat::UNKNOWN,
            };
            let kb = spec_stored_replacement(o, x, fmt);
            let kd = spec_plain(o.replace_kernel_dtb, img.blocks@.kernel_dtb);
            &&& spec_fwd(s, t)
            &&& s.pos + kb.len() <= t.pos
            &&& t.buf.len() >= s.pos + kb.len()
            &&& t.buf.subrange(s.pos, s.pos + kb.len()) == kb
            &&& k == (kb.len() as u32) + (kd.len() as u32)
        }),
{
    reveal(spec_kernel_phase);
    let b0 = img.blocks@;
    let page = img.header.spec_page_size() as int;
    let kfmt = match b0.kernel {
        Some(kk) => kk.compress_format,
        None => CompressFormat::UNKNOWN,
    };
    let korig = match b0.kernel {
        Some(kk) => Some(kk.data),
        None => None,
    };
    if let Ok(kb) = spec_block_bytes(o, o.replace_kernel, korig, kfmt) {
        reveal(spec_stored_replacement);
        assert(kb == spec_stored_replacement(o, x, kfmt));
        let kd = spec_plain(o.replace_kernel_dtb, b0.kernel_dtb);
        let w1 = spec_w(s, kb);
        lemma_w_fwd(s, kb);
        let e = s.pos + kb.len();
        if !w1.overflow {
            lemma_w_align_fwd(w1, kd, hoff, page, s.pos, e);
        }
        lemma_fwd_trans(s, w1, spec_align_rel(spec_w(w1, kd), hoff, page));
    }
}

/// The ramdisk phase, without a vendor ramdisk table, writes the ramdisk
/// bytes at the position.
#[verifier::spinoff_prover]
proof fn lemma_ramdisk_data(img: &BootImage, o: PatchOptsModel, s: OutState, hoff: int, x: Seq<u8>)
    requires
        s.pos >= 0,
        img.header.spec_page_size() > 0,
        o.replace_ramdisk == Some(x),
        !(img.blocks@.ramdisk matches Some(rr) && rr.vendor_entries is Some),
    ensures
        spec_ramdisk_phase(img, o, s, hoff) matches Ok((t, r)) ==> (!t.overflow ==> {
            let fmt = match img.blocks@.ramdisk {
                Some(rr) => rr.compress_format,
                None => CompressFormat::UNKNOWN,
            };
            let rb = spec_stored_replacement(o, x, fmt);
            &&& spec_fwd(s, t)
            &&& s.pos + rb.len() <= t.pos
            &&& t.buf.len() >= s.pos + rb.len()
            &&& t.buf.subrange(s.pos, s.pos + rb.len()) == rb
            &&& r == rb.len() as u32
        }),
{
    reveal(spec_ramdisk_phase);
    let page = img.header.spec_page_size() as int;
    let (orig, fmt) = match img.blocks@.ramdisk {
        Some(rr) => (Some(rr.data), rr.compress_format),
        None => (None, CompressFormat::UNKNOWN),
    };
    if let Ok(rb) = spec_block_bytes(o, o.replace_ramdisk, orig, fmt) {
        reveal(spec_stored_replacement);
        assert(rb == spec_stored_replacement(o, x, fmt));
        lemma_w_fwd(s, rb);
        let w1 = spec_w(s, rb);
        if !w1.overflow {
            lemma_align_rel_fwd(w1, hoff, page, s.pos, s.pos + rb.len());
        }
        lemma_fwd_trans(s, w1, spec_align_rel(w1, hoff, page));
    }
}


/// The mid parts are written from the position on: what lies before stays.
#[verifier::rlimit(60)]
#[verifier::spinoff_prover]
proof fn lemma_mid_keeps(img: &BootImage, o: PatchOptsModel, s: OutState, hoff: int, a: int, b: int)
    requires
        s.pos >= 0,
        s.pos >= b,
        img.header.spec_page_size() > 0,
    ensures
        spec_mid_phase(img, o, s, hoff) matches Ok((t, _)) ==> spec_fwd(s, t) && spec_keeps(s, t, a, b),
{
    reveal(spec_mid_phase);
    let bl = img.blocks@;
    let page = img.header.spec_page_size() as int;
    let sb = spec_plain(o.replace_second, bl.second);
    let eb = spec_plain(o.replace_extra, bl.extra);
    let rb = spec_plain(o.replace_recovery_dtbo, bl.recovery_dtbo);
    let db = spec_plain(o.replace_dtb, bl.dtb);
    let bb = spec_plain(o.replace_bootconfig, bl.bootconfig);
    let s1 = spec_align_rel(spec_w(s, sb), hoff, page);
    let s2 = spec_align_rel(spec_w(s1, eb), hoff, page);
    let s3 = spec_align_rel(spec_w(s2, rb), hoff, page);
    let s4 = spec_align_rel(spec_w(s3, db), hoff, page);
    let s5 = match bl.signature {
        Some(sig) => spec_align_rel(spec_w(s4, sig), hoff, page),
        None => s4,
    };
    let s6 = match spec_source_table(bl) {
        Some(ents) => spec_align_rel(spec_w(s5, spec_vendor_table(ents)), hoff, page),
        None => s5,
    };
    let s7 = spec_align_rel(spec_w(s6, bb), hoff, page);
    lemma_w_align_fwd(s, sb, hoff, page, a, b);
    if !s1.overflow {
        lemma_w_align_fwd(s1, eb, hoff, page, a, b);
    }
    lemma_fwd_trans(s, s1, s2);
    lemma_keeps_trans(s, s1, s2, a, b);
    if !s2.overflow {
        lemma_w_align_fwd(s2, rb, hoff, page, a, b);
    }
    lemma_fwd_trans(s, s2, s3);
    lemma_keeps_trans(s, s2, s3, a, b);
    if !s3.overflow {
        lemma_w_align_fwd(s3, db, hoff, page, a, b);
    }
    lemma_fwd_trans(s, s3, s4);
    lemma_keeps_trans(s, s3, s4, a, b);
    if let Some(sig) = bl.signature {
        if !s4.overflow {
            lemma_w_align_fwd(s4, sig, hoff, page, a, b);
        }
    }
    lemma_fwd_trans(s, s4, s5);
    lemma_keeps_trans(s, s4, s5, a, b);
    if let Some(ents) = spec_source_table(bl) {
        if !s5.overflow {
            lemma_w_align_fwd(s5, spec_vendor_table(ents), hoff, page, a, b);
        }
    }
    lemma_fwd_trans(s, s5, s6);
    lemma_keeps_trans(s, s5, s6, a, b);
    if !s6.overflow {
        lemma_w_align_fwd(s6, bb, hoff, page, a, b);
    }
    lemma_fwd_trans(s, s6, s7);
    lemma_keeps_trans(s, s6, s7, a, b);
}

/// Replacing the kernel puts the replacement (compressed like the source
/// kernel where that is called for) right after the header space, and sets
/// the header's kernel size field to its length plus that of the kernel DTB.
#[verifier::spinoff_prover]
pub proof fn law_patch_writes_replaced_kernel(img: &BootImage, o: PatchOptsModel, x: Seq<u8>)
    requires
        spec_patch_source_ok(img),
        exists|k: crate::layouts::LayoutKind| img.header.spec_layout() == crate::layouts::spec_layout(k),
        o.replace_kernel == Some(x),
    ensures
        spec_patch(img, o) matches Ok(out) ==> {
            let hoff = spec_pre_header(img).len() as int;
            let fmt = match img.blocks@.kernel {
                Some(kk) => kk.compress_format,
                None => CompressFormat::UNKNOWN,
            };
            let kb = spec_stored_replacement(o, x, fmt);
            let kd = spec_plain(o.replace_kernel_dtb, img.blocks@.kernel_dtb);
            let p = hoff + img.header.spec_hdr_space();
            &&& crate::bytes::spec_le32(out, hoff + img.header.spec_layout().offset_kernel_size) == (kb.len() as u32)
                + (kd.len() as u32)
            &&& p + kb.len() <= out.len()
            &&& out.subrange(p, p + kb.len()) == kb
        },
{
    let l = img.header.spec_layout();
    let kind = choose|k: crate::layouts::LayoutKind| img.header.spec_layout() == crate::layouts::spec_layout(k);
    lemma_known_layout(kind);
    img.header.lemma_hdr_space();
    lemma_head_pos(img, o);
    if let Ok(out) = spec_patch(img, o) {
        let (s0, hoff) = spec_head(img, o)->Ok_0;
        let (s1, k) = spec_kernel_phase(img, o, s0, hoff)->Ok_0;
        let (s2, r) = spec_ramdisk_phase(img, o, s1, hoff)->Ok_0;
        let (s3, m) = spec_mid_phase(img, o, s2, hoff)->Ok_0;
        let s4 = spec_avb_phase(img, s3, hoff)->Ok_0;
        let size = spec_img_size(s3.pos, hoff);
        let s5 = spec_fix_header(img, s4, hoff, k, r, m, size);
        assert(!s5.overflow && out == s5.buf);
        reveal(spec_head);
        assert(hoff >= 0);
        lemma_fix_header_grows(img, s4, hoff, k, r, m, size);
        if s3.overflow {
            lemma_phases_sticky(img, o, s3, hoff);
        }
        if s2.overflow {
            lemma_phases_sticky(img, o, s2, hoff);
        }
        if s1.overflow {
            lemma_phases_sticky(img, o, s1, hoff);
        }
        if s0.overflow {
            lemma_phases_sticky(img, o, s0, hoff);
        }
        assert(!s0.overflow);
        let fmt = match img.blocks@.kernel {
            Some(kk) => kk.compress_format,
            None => CompressFormat::UNKNOWN,
        };
        let bytes = spec_stored_replacement(o, x, fmt);
        lemma_kernel_data(img, o, s0, hoff, x);
        let p = s0.pos;
        let e = p + bytes.len();
        lemma_kernel_ramdisk_fwd(img, o, s1, hoff, p, e);
        lemma_mid_keeps(img, o, s2, hoff, p, e);
        lemma_keeps_trans(s1, s2, s3, p, e);
        assert(s3.buf.subrange(p, e) == bytes);
        lemma_avb_keeps(img, s3, hoff, p, e);
        lemma_fix_header_keeps(img, s4, hoff, k, r, m, size, p, e);
        lemma_keeps_trans(s3, s4, s5, p, e);
        assert(out.subrange(p, e) == bytes);
        let f = hoff + l.offset_kernel_size;
        lemma_fix_sizes_field_kernel(img, s4, hoff, k, r, m);
        lemma_fix_sizes_grows(img, s4, hoff, k, r, m);
        lemma_fix_header_tail(img, s4, hoff, k, r, m, size, f, 4);
        let s9 = spec_fix_sizes(img, s4, hoff, k, r, m);
        assert(!s9.overflow);
        let fb = out.subrange(f, f + 4);
        assert(fb == spec_le32_bytes(k));
        crate::bytes::lemma_le32_roundtrip(k);
        assert(fb[0] == out[f] && fb[1] == out[f + 1] && fb[2] == out[f + 2] && fb[3] == out[f + 3]);
        assert(crate::bytes::spec_le32(out, f) == crate::bytes::spec_le32(fb, 0));
    }
}

/// Replacing the ramdisk of an image without a vendor ramdisk table puts the
/// replacement (compressed like the source ramdisk where that is called for)
/// into the repacked image past the header, and sets the header's ramdisk
/// size field to its length.
#[verifier::spinoff_prover]
pub proof fn law_patch_writes_replaced_ramdisk(img: &BootImage, o: PatchOptsModel, x: Seq<u8>)
    requires
        spec_patch_source_ok(img),
        exists|k: crate::layouts::LayoutKind| img.header.spec_layout() == crate::layouts::spec_layout(k),
        img.header.spec_layout().offset_ramdisk_size != 0,
        !(img.blocks@.ramdisk matches Some(rr) && rr.vendor_entries is Some),
        o.replace_ramdisk == Some(x),
    ensures
        spec_patch(img, o) matches Ok(out) ==> {
            let hoff = spec_pre_header(img).len() as int;
            let rb = spec_stored_replacement(o, x, spec_ramdisk_format(img));
            &&& crate::bytes::spec_le32(out, hoff + img.header.spec_layout().offset_ramdisk_size) == rb.len() as u32
            &&& exists|p: int|
                hoff + img.header.spec_hdr_space() <= p && p + rb.len() <= out.len()
                    && #[trigger] out.subrange(p, p + rb.len()) == rb
        },
{
    let l = img.header.spec_layout();
    let kind = choose|k: crate::layouts::LayoutKind| img.header.spec_layout() == crate::layouts::spec_layout(k);
    lemma_known_layout(kind);
    img.header.lemma_hdr_space();
    lemma_head_pos(img, o);
    if let Ok(out) = spec_patch(img, o) {
        let (s0, hoff) = spec_head(img, o)->Ok_0;
        let (s1, k) = spec_kernel_phase(img, o, s0, hoff)->Ok_0;
        let (s2, r) = spec_ramdisk_phase(img, o, s1, hoff)->Ok_0;
        let (s3, m) = spec_mid_phase(img, o, s2, hoff)->Ok_0;
        let s4 = spec_avb_phase(img, s3, hoff)->Ok_0;
        let size = spec_img_size(s3.pos, hoff);
        let s5 = spec_fix_header(img, s4, hoff, k, r, m, size);
        assert(!s5.overflow && out == s5.buf);
        reveal(spec_head);
        assert(hoff >= 0);
        lemma_fix_header_grows(img, s4, hoff, k, r, m, size);
        if s3.overflow {
            lemma_phases_sticky(img, o, s3, hoff);
        }
        if s2.overflow {
            lemma_phases_sticky(img, o, s2, hoff);
        }
        if s1.overflow {
            lemma_phases_sticky(img, o, s1, hoff);
        }
        if s0.overflow {
            lemma_phases_sticky(img, o, s0, hoff);
        }
        assert(!s0.overflow);
        let fmt = match img.blocks@.ramdisk {
            Some(rr) => rr.compress_format,
            None => CompressFormat::UNKNOWN,
        };
        let bytes = spec_stored_replacement(o, x, fmt);
        lemma_kernel_ramdisk_fwd(img, o, s0, hoff, 0, 0);
        lemma_ramdisk_data(img, o, s1, hoff, x);
        let p = s1.pos;
        let e = p + bytes.len();
        assert(!s2.overflow);
        assert(s2.buf.subrange(p, e) == bytes);
        lemma_mid_keeps(img, o, s2, hoff, p, e);
        assert(s3.buf.subrange(p, e) == bytes);
        lemma_avb_keeps(img, s3, hoff, p, e);
        lemma_fix_header_keeps(img, s4, hoff, k, r, m, size, p, e);
        lemma_keeps_trans(s3, s4, s5, p, e);
        assert(out.subrange(p, e) == bytes);
        let f = hoff + l.offset_ramdisk_size;
        lemma_fix_sizes_field_ramdisk(img, s4, hoff, k, r, m);
        lemma_fix_sizes_grows(img, s4, hoff, k, r, m);
        lemma_fix_header_tail(img, s4, hoff, k, r, m, size, f, 4);
        let s9 = spec_fix_sizes(img, s4, hoff, k, r, m);
        assert(!s9.overflow);
        let fb = out.subrange(f, f + 4);
        assert(fb == spec_le32_bytes(r));
        crate::bytes::lemma_le32_roundtrip(r);
        assert(fb[0] == out[f] && fb[1] == out[f + 1] && fb[2] == out[f + 2] && fb[3] == out[f + 3]);
        assert(crate::bytes::spec_le32(out, f) == crate::bytes::spec_le32(fb, 0));
        assert(p >= hoff + img.header.spec_hdr_space());
        assert(p + bytes.len() <= out.len());
        assert(out.subrange(p, p + bytes.len()) == bytes);
        assert(r == bytes.len() as u32);
        assert(crate::bytes::spec_le32(out, hoff + l.offset_ramdisk_size) == bytes.len() as u32);
        assert(hoff == spec_pre_header(img).len() as int);
    }
}


/// The header region holds the overridden command line, padded with zeros
/// to its field, and the overridden OS version field.
#[verifier::spinoff_prover]
proof fn lemma_head_overrides(img: &BootImage, o: PatchOptsModel)
    requires
        spec_patch_source_ok(img),
        crate::layouts::layout_wf(img.header.spec_layout()),
        img.header.spec_layout().offset_os_version != 0 ==> (img.header.spec_layout().offset_os_version + 4
            <= img.header.spec_layout().offset_cmdline || img.header.spec_layout().offset_os_version
            >= img.header.spec_layout().offset_cmdline + img.header.spec_layout().size_cmdline),
    ensures
        spec_head(img, o) matches Ok((s0, hoff)) ==> (!s0.overflow ==> {
            let l = img.header.spec_layout();
            let fc = hoff + l.offset_cmdline;
            let fo = hoff + l.offset_os_version;
            &&& o.override_cmdline matches Some(c) ==> s0.buf.len() >= fc + l.size_cmdline && s0.buf.subrange(
                fc,
                fc + l.size_cmdline,
            ) == c + spec_zeros(l.size_cmdline - c.len())
            &&& o.override_os_version matches Some((v, p)) ==> (l.offset_os_version != 0 ==> s0.buf.len() >= fo + 4
                && s0.buf.subrange(fo, fo + 4) == spec_le32_bytes(spec_os_version_field(v, p)))
        }),
{
    reveal(spec_head);
    let l = img.header.spec_layout();
    let e0 = OutState { buf: Seq::empty(), pos: 0, overflow: false };
    let pre = spec_pre_header(img);
    let s1 = spec_w(e0, pre);
    lemma_w_fwd(e0, pre);
    let hoff = s1.pos;
    let s2 = spec_w(s1, img.header.spec_data());
    if !s1.overflow {
        lemma_w_fwd(s1, img.header.spec_data());
    }
    let fc = hoff + l.offset_cmdline;
    let ec = fc + l.size_cmdline;
    let fo = hoff + l.offset_os_version;
    if !(o.override_cmdline matches Some(c) && c.len() > l.size_cmdline) && !s2.overflow {
        let s3 = match o.override_cmdline {
            Some(c) => spec_w(spec_w(spec_seek(s2, fc), c), spec_zeros(l.size_cmdline - c.len())),
            None => s2,
        };
        if let Some(c) = o.override_cmdline {
            let k1 = spec_seek(s2, fc);
            let k2 = spec_w(k1, c);
            lemma_w_fwd(k1, c);
            if !k2.overflow {
                lemma_w_fwd(k2, spec_zeros(l.size_cmdline - c.len()));
                let k3 = spec_w(k2, spec_zeros(l.size_cmdline - c.len()));
                if !k3.overflow {
                    assert(k3.buf.subrange(fc, fc + c.len()) =~= k2.buf.subrange(fc, fc + c.len())) by {
                        lemma_w_keeps(k2, spec_zeros(l.size_cmdline - c.len()), fc, fc + c.len());
                    }
                    assert(k3.buf.subrange(fc, ec) =~= c + spec_zeros(l.size_cmdline - c.len())) by {
                        assert forall|i: int| 0 <= i < ec - fc implies #[trigger] k3.buf.subrange(fc, ec)[i] == (c
                            + spec_zeros(l.size_cmdline - c.len()))[i] by {
                            if i < c.len() {
                                assert(k3.buf.subrange(fc, fc + c.len())[i] == k3.buf.subrange(fc, ec)[i]);
                            } else {
                                assert(k3.buf.subrange(fc + c.len(), ec)[i - c.len()] == k3.buf.subrange(fc, ec)[i]);
                            }
                        }
                    }
                }
            }
        }
        let s4 = match o.override_os_version {
            Some((v, p)) => if l.offset_os_version != 0 {
                spec_w(spec_seek(s3, fo), spec_le32_bytes(spec_os_version_field(v, p)))
            } else {
                s3
            },
            None => s3,
        };
        if let Some((v, p)) = o.override_os_version {
            if l.offset_os_version != 0 {
                let k1 = spec_seek(s3, fo);
                let bytes = spec_le32_bytes(spec_os_version_field(v, p));
                if !k1.overflow {
                    lemma_w_fwd(k1, bytes);
                    lemma_w_keeps(k1, bytes, fc, ec);
                }
            }
        }
    }
}

/// Overriding the command line puts it, padded with zeros, into the header's
/// command line field of the repacked image.
#[verifier::spinoff_prover]
pub proof fn law_patch_overrides_cmdline(img: &BootImage, o: PatchOptsModel, c: Seq<u8>)
    requires
        spec_patch_source_ok(img),
        exists|k: crate::layouts::LayoutKind| img.header.spec_layout() == crate::layouts::spec_layout(k),
        o.override_cmdline == Some(c),
    ensures
        spec_patch(img, o) matches Ok(out) ==> {
            let l = img.header.spec_layout();
            let f = spec_pre_header(img).len() + l.offset_cmdline;
            &&& f + l.size_cmdline <= out.len()
            &&& out.subrange(f, f + l.size_cmdline) == c + spec_zeros(l.size_cmdline - c.len())
        },
{
    let l = img.header.spec_layout();
    let kind = choose|k: crate::layouts::LayoutKind| img.header.spec_layout() == crate::layouts::spec_layout(k);
    lemma_known_layout(kind);
    img.header.lemma_hdr_space();
    lemma_head_pos(img, o);
    lemma_head_overrides(img, o);
    if let Ok(out) = spec_patch(img, o) {
        let (s0, hoff) = spec_head(img, o)->Ok_0;
        let (s1, k) = spec_kernel_phase(img, o, s0, hoff)->Ok_0;
        let (s2, r) = spec_ramdisk_phase(img, o, s1, hoff)->Ok_0;
        let (s3, m) = spec_mid_phase(img, o, s2, hoff)->Ok_0;
        let s4 = spec_avb_phase(img, s3, hoff)->Ok_0;
        let size = spec_img_size(s3.pos, hoff);
        let s5 = spec_fix_header(img, s4, hoff, k, r, m, size);
        assert(!s5.overflow && out == s5.buf);
        reveal(spec_head);
        assert(hoff >= 0);
        lemma_fix_header_grows(img, s4, hoff, k, r, m, size);
        if s3.overflow {
            lemma_phases_sticky(img, o, s3, hoff);
        }
        if s2.overflow {
            lemma_phases_sticky(img, o, s2, hoff);
        }
        if s1.overflow {
            lemma_phases_sticky(img, o, s1, hoff);
        }
        if s0.overflow {
            lemma_phases_sticky(img, o, s0, hoff);
        }
        assert(!s0.overflow);
        let p = hoff + l.offset_cmdline;
        let e = p + l.size_cmdline;
        lemma_kernel_ramdisk_fwd(img, o, s0, hoff, p, e);
        lemma_kernel_ramdisk_fwd(img, o, s1, hoff, p, e);
        lemma_keeps_trans(s0, s1, s2, p, e);
        lemma_mid_keeps(img, o, s2, hoff, p, e);
        lemma_keeps_trans(s0, s2, s3, p, e);
        lemma_avb_keeps(img, s3, hoff, p, e);
        lemma_keeps_trans(s0, s3, s4, p, e);
        lemma_fix_header_keeps(img, s4, hoff, k, r, m, size, p, e);
        lemma_keeps_trans(s0, s4, s5, p, e);
    }
}

/// Overriding the OS version sets the header's OS version field, where the
/// format has one, to the version's two low bytes (seven bits each) above
/// the patch level (seven bits), little-endian.
#[verifier::spinoff_prover]
pub proof fn law_patch_overrides_os_version(img: &BootImage, o: PatchOptsModel, v: u32, p: u32)
    requires
        spec_patch_source_ok(img),
        exists|k: crate::layouts::LayoutKind| img.header.spec_layout() == crate::layouts::spec_layout(k),
        img.header.spec_layout().offset_os_version != 0,
        o.override_os_version == Some((v, p)),
    ensures
        spec_patch(img, o) matches Ok(out) ==> crate::bytes::spec_le32(
            out,
            spec_pre_header(img).len() + img.header.spec_layout().offset_os_version,
        ) == ((((v & 0x7f) << 14u32) | (((v >> 8u32) & 0x7f) << 7u32)) << 11u32) | ((p & 0x7f) << 4u32),
{
    let l = img.header.spec_layout();
    let kind = choose|k: crate::layouts::LayoutKind| img.header.spec_layout() == crate::layouts::spec_layout(k);
    lemma_known_layout(kind);
    img.header.lemma_hdr_space();
    lemma_head_pos(img, o);
    lemma_head_overrides(img, o);
    if let Ok(out) = spec_patch(img, o) {
        let (s0, hoff) = spec_head(img, o)->Ok_0;
        let (s1, k) = spec_kernel_phase(img, o, s0, hoff)->Ok_0;
        let (s2, r) = spec_ramdisk_phase(img, o, s1, hoff)->Ok_0;
        let (s3, m) = spec_mid_phase(img, o, s2, hoff)->Ok_0;
        let s4 = spec_avb_phase(img, s3, hoff)->Ok_0;
        let size = spec_img_size(s3.pos, hoff);
        let s5 = spec_fix_header(img, s4, hoff, k, r, m, size);
        assert(!s5.overflow && out == s5.buf);
        reveal(spec_head);
        assert(hoff >= 0);
        lemma_fix_header_grows(img, s4, hoff, k, r, m, size);
        if s3.overflow {
            lemma_phases_sticky(img, o, s3, hoff);
        }
        if s2.overflow {
            lemma_phases_sticky(img, o, s2, hoff);
        }
        if s1.overflow {
            lemma_phases_sticky(img, o, s1, hoff);
        }
        if s0.overflow {
            lemma_phases_sticky(img, o, s0, hoff);
        }
        assert(!s0.overflow);
        let f = hoff + l.offset_os_version;
        let e = f + 4;
        lemma_kernel_ramdisk_fwd(img, o, s0, hoff, f, e);
        lemma_kernel_ramdisk_fwd(img, o, s1, hoff, f, e);
        lemma_keeps_trans(s0, s1, s2, f, e);
        lemma_mid_keeps(img, o, s2, hoff, f, e);
        lemma_keeps_trans(s0, s2, s3, f, e);
        lemma_avb_keeps(img, s3, hoff, f, e);
        lemma_keeps_trans(s0, s3, s4, f, e);
        lemma_fix_header_keeps(img, s4, hoff, k, r, m, size, f, e);
        lemma_keeps_trans(s0, s4, s5, f, e);
        let val = spec_os_version_field(v, p);
        let fb = out.subrange(f, e);
        assert(fb == spec_le32_bytes(val));
        crate::bytes::lemma_le32_roundtrip(val);
        assert(fb[0] == out[f] && fb[1] == out[f + 1] && fb[2] == out[f + 2] && fb[3] == out[f + 3]);
        assert(crate::bytes::spec_le32(out, f) == crate::bytes::spec_le32(fb, 0));
    }
}

} // verus!
