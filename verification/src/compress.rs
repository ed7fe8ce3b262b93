//! Detection of compressed payloads, and compression / decompression of them.
use vstd::prelude::*;
use crate::bytes::{bytes_match_at, spec_starts_with_at};
use crate::constants::{
    bzip_magic, dtb_magic, gzip1_magic, gzip2_magic, lz41_magic, lz42_magic, lz4_leg_magic,
    lzop_magic, mtk_magic, spec_bzip_magic, spec_dtb_magic, spec_gzip1_magic, spec_gzip2_magic,
    spec_lz41_magic, spec_lz42_magic, spec_lz4_leg_magic, spec_lzop_magic, spec_mtk_magic,
    spec_xz_magic, xz_magic,
};
use crate::bytes::{append_slice, le32_bytes, read_le32, slice_to_vec, spec_le32, spec_le32_bytes};
use crate::utils::{guess_lzma, spec_guess_lzma};
use std::io::Read;
use std::io::Write;

verus! {

/// The payload formats that can be told apart by their first bytes.
#[derive(Debug, Clone, Copy, PartialEq, Eq, Structural)]
#[allow(non_camel_case_types)]
pub enum CompressFormat {
    UNKNOWN,
    GZIP,
    ZOPFLI,
    XZ,
    LZMA,
    BZIP2,
    LZ4,
    LZ4_LEGACY,
    LZ4_LG,
    LZOP,
    MTK,
    DTB,
    ZIMAGE,
}

/// Whether `d` begins with `m`.
pub open spec fn begins(d: Seq<u8>, m: Seq<u8>) -> bool {
    spec_starts_with_at(d, 0, m)
}

/// The format that the leading bytes of `data` announce.
pub open spec fn spec_parse_compress_format(data: Seq<u8>) -> CompressFormat {
    if data.len() < 2 {
        CompressFormat::UNKNOWN
    } else if begins(data, spec_gzip1_magic()) || begins(data, spec_gzip2_magic()) {
        CompressFormat::GZIP
    } else if data.len() >= 4 && begins(data, spec_lzop_magic()) {
        CompressFormat::LZOP
    } else if data.len() >= 4 && begins(data, spec_xz_magic()) {
        CompressFormat::XZ
    } else if data.len() >= 4 && (begins(data, spec_lz41_magic()) || begins(data, spec_lz42_magic())) {
        CompressFormat::LZ4
    } else if data.len() >= 4 && begins(data, spec_lz4_leg_magic()) {
        CompressFormat::LZ4_LEGACY
    } else if data.len() >= 4 && begins(data, spec_mtk_magic()) {
        CompressFormat::MTK
    } else if data.len() >= 4 && begins(data, spec_dtb_magic()) {
        CompressFormat::DTB
    } else if data.len() >= 4 && begins(data, spec_bzip_magic()) {
        CompressFormat::BZIP2
    } else if spec_guess_lzma(data) {
        CompressFormat::LZMA
    } else {
        CompressFormat::UNKNOWN
    }
}

/// Whether `d` begins with `m` is decided by the first `m.len()` bytes of `d`.
proof fn lemma_begins_prefix(d: Seq<u8>, e: Seq<u8>, m: Seq<u8>)
    ensures
        m.len() <= d.len() ==> begins(d + e, m) == begins(d, m),
        begins(d + e, m) && m.len() > 0 && d.len() > 0 ==> d[0] == m[0],
{
    if m.len() <= d.len() {
        assert((d + e).subrange(0, m.len() as int) =~= d.subrange(0, m.len() as int));
    }
    if begins(d + e, m) && m.len() > 0 && d.len() > 0 {
        assert((d + e).subrange(0, m.len() as int)[0] == m[0]);
    }
}

/// A detected format depends on the leading bytes alone: once `d` announces
/// a format, whatever follows `d` announces the same one.
pub proof fn law_format_from_prefix(d: Seq<u8>, e: Seq<u8>)
    requires
        spec_parse_compress_format(d) != CompressFormat::UNKNOWN,
    ensures
        spec_parse_compress_format(d + e) == spec_parse_compress_format(d),
{
    let de = d + e;
    lemma_begins_prefix(d, e, spec_gzip1_magic());
    lemma_begins_prefix(d, e, spec_gzip2_magic());
    lemma_begins_prefix(d, e, spec_lzop_magic());
    lemma_begins_prefix(d, e, spec_xz_magic());
    lemma_begins_prefix(d, e, spec_lz41_magic());
    lemma_begins_prefix(d, e, spec_lz42_magic());
    lemma_begins_prefix(d, e, spec_lz4_leg_magic());
    lemma_begins_prefix(d, e, spec_mtk_magic());
    lemma_begins_prefix(d, e, spec_dtb_magic());
    lemma_begins_prefix(d, e, spec_bzip_magic());
    assert(forall|i: int| 0 <= i < d.len() ==> de[i] == d[i]);
    if spec_guess_lzma(d) {
        assert(spec_le32(de, 1) == spec_le32(d, 1));
        assert(spec_guess_lzma(de));
    }
    if d.len() > 13 && spec_guess_lzma(de) {
        assert(spec_le32(de, 1) == spec_le32(d, 1));
        assert(spec_guess_lzma(d));
    }
}

/// Detects the format of `data` from its leading bytes.
pub fn parse_compress_format(data: &[u8]) -> (r: CompressFormat)
    ensures
        r == spec_parse_compress_format(data@),
        r != CompressFormat::ZIMAGE,
        r != CompressFormat::ZOPFLI,
        r != CompressFormat::LZ4_LG,
{
    if data.len() < 2 {
        return CompressFormat::UNKNOWN;
    }
    if bytes_match_at(data, 0, gzip1_magic()) || bytes_match_at(data, 0, gzip2_magic()) {
        return CompressFormat::GZIP;
    }
    if data.len() >= 4 {
        if bytes_match_at(data, 0, lzop_magic()) {
            return CompressFormat::LZOP;
        }
        if bytes_match_at(data, 0, xz_magic()) {
            return CompressFormat::XZ;
        }
        if bytes_match_at(data, 0, lz41_magic()) || bytes_match_at(data, 0, lz42_magic()) {
            return CompressFormat::LZ4;
        }
        if bytes_match_at(data, 0, lz4_leg_magic()) {
            return CompressFormat::LZ4_LEGACY;
        }
        if bytes_match_at(data, 0, mtk_magic()) {
            return CompressFormat::MTK;
        }
        if bytes_match_at(data, 0, dtb_magic()) {
            return CompressFormat::DTB;
        }
    }
    if data.len() >= 4 && bytes_match_at(data, 0, bzip_magic()) {
        return CompressFormat::BZIP2;
    }
    if guess_lzma(data) {
        return CompressFormat::LZMA;
    }
    CompressFormat::UNKNOWN
}

/// The formats that hold a compressed stream.
pub open spec fn spec_is_compressed(fmt: CompressFormat) -> bool {
    match fmt {
        CompressFormat::GZIP | CompressFormat::ZOPFLI | CompressFormat::XZ | CompressFormat::LZMA
        | CompressFormat::BZIP2 | CompressFormat::LZ4 | CompressFormat::LZ4_LEGACY
        | CompressFormat::LZ4_LG => true,
        _ => false,
    }
}

/// Whether `fmt` is a compressed stream format.
pub fn is_compressed(fmt: CompressFormat) -> (r: bool)
    ensures
        r == spec_is_compressed(fmt),
{
    match fmt {
        CompressFormat::GZIP | CompressFormat::ZOPFLI | CompressFormat::XZ | CompressFormat::LZMA
        | CompressFormat::BZIP2 | CompressFormat::LZ4 | CompressFormat::LZ4_LEGACY
        | CompressFormat::LZ4_LG => true,
        _ => false,
    }
}

/// The short name of a format.
pub open spec fn spec_fmt2name(fmt: CompressFormat) -> Seq<char> {
    match fmt {
        CompressFormat::UNKNOWN => "raw"@,
        CompressFormat::GZIP => "gzip"@,
        CompressFormat::ZOPFLI => "zopfli"@,
        CompressFormat::XZ => "xz"@,
        CompressFormat::LZMA => "lzma"@,
        CompressFormat::BZIP2 => "bzip2"@,
        CompressFormat::LZ4 => "lz4"@,
        CompressFormat::LZ4_LEGACY => "lz4_legacy"@,
        CompressFormat::LZ4_LG => "lz4_lg"@,
        CompressFormat::LZOP => "lzop"@,
        CompressFormat::MTK => "mtk"@,
        CompressFormat::DTB => "dtb"@,
        CompressFormat::ZIMAGE => "zimage"@,
    }
}

/// Beginning with `m`, `d` has the first byte of `m`.
proof fn lemma_begins_first(d: Seq<u8>, m: Seq<u8>)
    ensures
        begins(d, m) && m.len() > 0 ==> d[0] == m[0],
{
    if begins(d, m) && m.len() > 0 {
        assert(d.subrange(0, m.len() as int)[0] == m[0]);
    }
}

/// Each magic announces its own format: data of at least the magic's length
/// (and of at least four bytes where the detection asks for that) that begins
/// with a format's magic is detected as that format, and data that passes the
/// raw LZMA header test is detected as LZMA.
pub proof fn law_magic_announces_format(d: Seq<u8>)
    ensures
        d.len() >= 2 && (begins(d, spec_gzip1_magic()) || begins(d, spec_gzip2_magic()))
            ==> spec_parse_compress_format(d) == CompressFormat::GZIP,
        d.len() >= 4 && begins(d, spec_lzop_magic()) ==> spec_parse_compress_format(d) == CompressFormat::LZOP,
        d.len() >= 4 && begins(d, spec_xz_magic()) ==> spec_parse_compress_format(d) == CompressFormat::XZ,
        d.len() >= 4 && (begins(d, spec_lz41_magic()) || begins(d, spec_lz42_magic()))
            ==> spec_parse_compress_format(d) == CompressFormat::LZ4,
        d.len() >= 4 && begins(d, spec_lz4_leg_magic()) ==> spec_parse_compress_format(d)
            == CompressFormat::LZ4_LEGACY,
        d.len() >= 4 && begins(d, spec_mtk_magic()) ==> spec_parse_compress_format(d) == CompressFormat::MTK,
        d.len() >= 4 && begins(d, spec_dtb_magic()) ==> spec_parse_compress_format(d) == CompressFormat::DTB,
        d.len() >= 4 && begins(d, spec_bzip_magic()) ==> spec_parse_compress_format(d) == CompressFormat::BZIP2,
        spec_guess_lzma(d) ==> spec_parse_compress_format(d) == CompressFormat::LZMA,
{
    lemma_begins_first(d, spec_gzip1_magic());
    lemma_begins_first(d, spec_gzip2_magic());
    lemma_begins_first(d, spec_lzop_magic());
    lemma_begins_first(d, spec_xz_magic());
    lemma_begins_first(d, spec_lz41_magic());
    lemma_begins_first(d, spec_lz42_magic());
    lemma_begins_first(d, spec_lz4_leg_magic());
    lemma_begins_first(d, spec_mtk_magic());
    lemma_begins_first(d, spec_dtb_magic());
    lemma_begins_first(d, spec_bzip_magic());
}

/// Two different formats have different names.
pub proof fn law_format_names_distinct(f: CompressFormat, g: CompressFormat)
    ensures
        f != g ==> spec_fmt2name(f) != spec_fmt2name(g),
{
    reveal_strlit("raw");
    reveal_strlit("gzip");
    reveal_strlit("zopfli");
    reveal_strlit("xz");
    reveal_strlit("lzma");
    reveal_strlit("bzip2");
    reveal_strlit("lz4");
    reveal_strlit("lz4_legacy");
    reveal_strlit("lz4_lg");
    reveal_strlit("lzop");
    reveal_strlit("mtk");
    reveal_strlit("dtb");
    reveal_strlit("zimage");
    if f != g && spec_fmt2name(f) == spec_fmt2name(g) {
        let a = spec_fmt2name(f);
        let b = spec_fmt2name(g);
        assert(a.len() == b.len());
        assert(a[0] == b[0]);
        assert(a.len() > 1 ==> a[1] == b[1]);
        assert(a.len() > 2 ==> a[2] == b[2]);
        assert(a.len() > 3 ==> a[3] == b[3]);
        assert(a.len() > 4 ==> a[4] == b[4]);
    }
}

/// The short name of a format.
pub fn fmt2name(fmt: CompressFormat) -> (r: &'static str)
    ensures
        r@ == spec_fmt2name(fmt),
{
    match fmt {
        CompressFormat::UNKNOWN => "raw",
        CompressFormat::GZIP => "gzip",
        CompressFormat::ZOPFLI => "zopfli",
        CompressFormat::XZ => "xz",
        CompressFormat::LZMA => "lzma",
        CompressFormat::BZIP2 => "bzip2",
        CompressFormat::LZ4 => "lz4",
        CompressFormat::LZ4_LEGACY => "lz4_legacy",
        CompressFormat::LZ4_LG => "lz4_lg",
        CompressFormat::LZOP => "lzop",
        CompressFormat::MTK => "mtk",
        CompressFormat::DTB => "dtb",
        CompressFormat::ZIMAGE => "zimage",
    }
}

#[verifier::external_type_specification]
#[verifier::external_body]
pub struct ExIoError(std::io::Error);

/// Why a payload could not be compressed or decompressed.
#[derive(Debug, Clone, Copy, PartialEq, Eq, Structural)]
pub enum CompressError {
    /// The format is not one that can be compressed or decompressed.
    Unsupported(CompressFormat),
    /// The codec reported an error.
    Failed,
}

/// What `flate2::read::MultiGzDecoder` reads from `data`: the concatenated
/// members, or `None` where the stream is corrupt.
pub uninterp spec fn gzip_decoded(data: Seq<u8>) -> Option<Seq<u8>>;

/// What `xz`-decoding `data` with `lzma_rust2::XzReader` (several streams
/// allowed) gives.
pub uninterp spec fn xz_decoded(data: Seq<u8>) -> Option<Seq<u8>>;

/// What `lzma_rust2::LzmaReader::new_mem_limit` without a memory limit reads
/// from the `.lzma` stream `data`.
pub uninterp spec fn lzma_decoded(data: Seq<u8>) -> Option<Seq<u8>>;

/// What `bzip2::read::BzDecoder` reads from `data`.
pub uninterp spec fn bzip2_decoded(data: Seq<u8>) -> Option<Seq<u8>>;

/// What `lz4::Decoder` reads from the lz4 frame stream `data`.
pub uninterp spec fn lz4_frame_decoded(data: Seq<u8>) -> Option<Seq<u8>>;

/// What `lz4::block::decompress(src, Some(size))` returns.
pub uninterp spec fn lz4_block_decompressed(src: Seq<u8>, size: i32) -> Option<Seq<u8>>;

/// What `flate2::write::GzEncoder` at the best level writes for `data`.
pub uninterp spec fn gzip_encoded(data: Seq<u8>) -> Option<Seq<u8>>;

/// What `zopfli::GzipEncoder` with one iteration and one block split writes
/// for `data`.
pub uninterp spec fn zopfli_encoded(data: Seq<u8>) -> Option<Seq<u8>>;

/// What `lzma_rust2::XzWriter` at preset 9 with a CRC32 check writes for `data`.
pub uninterp spec fn xz_encoded(data: Seq<u8>) -> Option<Seq<u8>>;

/// What `lzma_rust2::LzmaWriter` at preset 9 with a `.lzma` header writes for `data`.
pub uninterp spec fn lzma_encoded(data: Seq<u8>) -> Option<Seq<u8>>;

/// What `bzip2::write::BzEncoder` at the best level writes for `data`.
pub uninterp spec fn bzip2_encoded(data: Seq<u8>) -> Option<Seq<u8>>;

/// What `lz4::Encoder` with 4 MiB independent blocks, block and content
/// checksums and level 9 writes for `data`.
pub uninterp spec fn lz4_frame_encoded(data: Seq<u8>) -> Option<Seq<u8>>;

/// What `lz4::block::compress(src, Some(HIGHCOMPRESSION(12)), false)` returns.
pub uninterp spec fn lz4_block_compressed(src: Seq<u8>) -> Option<Seq<u8>>;

/// Reads all of `data` through `flate2::read::MultiGzDecoder`.
#[verifier::external_body]
fn gzip_decode(data: &[u8]) -> (r: Result<Vec<u8>, std::io::Error>)
    ensures
        match r {
            Ok(v) => gzip_decoded(data@) == Some(v@),
            Err(_) => gzip_decoded(data@) is None,
        },
{
    let mut out = Vec::new();
    flate2::read::MultiGzDecoder::new(data).read_to_end(&mut out).map(|_| out)
}

/// Reads all of `data` through `lzma_rust2::XzReader`.
#[verifier::external_body]
fn xz_decode(data: &[u8]) -> (r: Result<Vec<u8>, std::io::Error>)
    ensures
        match r {
            Ok(v) => xz_decoded(data@) == Some(v@),
            Err(_) => xz_decoded(data@) is None,
        },
{
    let mut out = Vec::new();
    lzma_rust2::XzReader::new(std::io::Cursor::new(data.to_vec()), true).read_to_end(&mut out).map(|_| out)
}

/// Reads all of `data` through `lzma_rust2::LzmaReader::new_mem_limit`.
#[verifier::external_body]
fn lzma_decode(data: &[u8]) -> (r: Result<Vec<u8>, std::io::Error>)
    ensures
        match r {
            Ok(v) => lzma_decoded(data@) == Some(v@),
            Err(_) => lzma_decoded(data@) is None,
        },
{
    let mut out = Vec::new();
    let mut rd = lzma_rust2::LzmaReader::new_mem_limit(std::io::Cursor::new(data.to_vec()), u32::MAX, None)?;
    rd.read_to_end(&mut out).map(|_| out)
}

/// Reads all of `data` through `bzip2::read::BzDecoder`.
#[verifier::external_body]
fn bzip2_decode(data: &[u8]) -> (r: Result<Vec<u8>, std::io::Error>)
    ensures
        match r {
            Ok(v) => bzip2_decoded(data@) == Some(v@),
            Err(_) => bzip2_decoded(data@) is None,
        },
{
    let mut out = Vec::new();
    bzip2::read::BzDecoder::new(data).read_to_end(&mut out).map(|_| out)
}

/// Reads all of `data` through `lz4::Decoder`.
#[verifier::external_body]
fn lz4_frame_decode(data: &[u8]) -> (r: Result<Vec<u8>, std::io::Error>)
    ensures
        match r {
            Ok(v) => lz4_frame_decoded(data@) == Some(v@),
            Err(_) => lz4_frame_decoded(data@) is None,
        },
{
    let mut out = Vec::new();
    lz4::Decoder::new(data)?.read_to_end(&mut out).map(|_| out)
}

/// `lz4::block::decompress`.
#[verifier::external_body]
fn lz4_block_decompress(src: &[u8], size: i32) -> (r: Result<Vec<u8>, std::io::Error>)
    ensures
        match r {
            Ok(v) => lz4_block_decompressed(src@, size) == Some(v@),
            Err(_) => lz4_block_decompressed(src@, size) is None,
        },
{
    lz4::block::decompress(src, Some(size))
}

/// Writes `data` through `flate2::write::GzEncoder` at the best level.
#[verifier::external_body]
fn gzip_encode(data: &[u8]) -> (r: Result<Vec<u8>, std::io::Error>)
    ensures
        match r {
            Ok(v) => gzip_encoded(data@) == Some(v@),
            Err(_) => gzip_encoded(data@) is None,
        },
{
    let mut enc = flate2::write::GzEncoder::new(Vec::new(), flate2::Compression::best());
    enc.write_all(data)?;
    enc.finish()
}

/// Writes `data` through a buffered `zopfli::GzipEncoder` with one iteration
/// and at most one block split.
#[verifier::external_body]
fn zopfli_encode(data: &[u8]) -> (r: Result<Vec<u8>, std::io::Error>)
    ensures
        match r {
            Ok(v) => zopfli_encoded(data@) == Some(v@),
            Err(_) => zopfli_encoded(data@) is None,
        },
{
    let opt = zopfli::Options {
        iteration_count: std::num::NonZeroU64::MIN,
        maximum_block_splits: 1,
        ..Default::default()
    };
    let mut enc = zopfli::GzipEncoder::new_buffered(opt, zopfli::BlockType::Dynamic, Vec::new())?;
    enc.write_all(data)?;
    enc.into_inner().map_err(|e| e.into_error())?.finish()
}

/// Writes `data` through `lzma_rust2::XzWriter` at preset 9 with a CRC32 check.
#[verifier::external_body]
fn xz_encode(data: &[u8]) -> (r: Result<Vec<u8>, std::io::Error>)
    ensures
        match r {
            Ok(v) => xz_encoded(data@) == Some(v@),
            Err(_) => xz_encoded(data@) is None,
        },
{
    let mut opt = lzma_rust2::XzOptions::with_preset(9);
    opt.set_check_sum_type(lzma_rust2::CheckType::Crc32);
    let mut enc = lzma_rust2::XzWriter::new(Vec::new(), opt)?;
    enc.write_all(data)?;
    enc.finish()
}

/// Writes `data` through `lzma_rust2::LzmaWriter::new_use_header` at preset 9.
#[verifier::external_body]
fn lzma_encode(data: &[u8]) -> (r: Result<Vec<u8>, std::io::Error>)
    ensures
        match r {
            Ok(v) => lzma_encoded(data@) == Some(v@),
            Err(_) => lzma_encoded(data@) is None,
        },
{
    let opt = lzma_rust2::LzmaOptions::with_preset(9);
    let mut enc = lzma_rust2::LzmaWriter::new_use_header(Vec::new(), &opt, None)?;
    enc.write_all(data)?;
    enc.finish()
}

/// Writes `data` through `bzip2::write::BzEncoder` at the best level.
#[verifier::external_body]
fn bzip2_encode(data: &[u8]) -> (r: Result<Vec<u8>, std::io::Error>)
    ensures
        match r {
            Ok(v) => bzip2_encoded(data@) == Some(v@),
            Err(_) => bzip2_encoded(data@) is None,
        },
{
    let mut enc = bzip2::write::BzEncoder::new(Vec::new(), bzip2::Compression::best());
    enc.write_all(data)?;
    enc.finish()
}

/// Writes `data` through an `lz4::Encoder` built with 4 MiB independent
/// blocks, block and content checksums, level 9 and auto flush.
#[verifier::external_body]
fn lz4_frame_encode(data: &[u8]) -> (r: Result<Vec<u8>, std::io::Error>)
    ensures
        match r {
            Ok(v) => lz4_frame_encoded(data@) == Some(v@),
            Err(_) => lz4_frame_encoded(data@) is None,
        },
{
    let mut enc = lz4::EncoderBuilder::new().block_size(lz4::BlockSize::Max4MB).block_mode(
        lz4::BlockMode::Independent,
    ).checksum(lz4::ContentChecksum::ChecksumEnabled).block_checksum(
        lz4::liblz4::BlockChecksum::BlockChecksumEnabled,
    ).level(9).auto_flush(true).build(Vec::new())?;
    enc.write_all(data)?;
    let (w, res) = enc.finish();
    res.map(|_| w)
}

/// `lz4::block::compress` at the highest HC level, without a size prefix.
#[verifier::external_body]
fn lz4_block_compress(src: &[u8]) -> (r: Result<Vec<u8>, std::io::Error>)
    ensures
        match r {
            Ok(v) => lz4_block_compressed(src@) == Some(v@),
            Err(_) => lz4_block_compressed(src@) is None,
        },
{
    lz4::block::compress(src, Some(lz4::block::CompressionMode::HIGHCOMPRESSION(LZ4HC_CLEVEL_MAX)), false)
}

/// The size of the pieces that the legacy lz4 format compresses one by one.
pub const LZ4_BLOCK_SIZE: usize = 0x800000;
/// The compression level of the legacy lz4 format.
pub const LZ4HC_CLEVEL_MAX: i32 = 12;
/// The magic that closes a legacy lz4 stream.
pub const LZ4_MAGIC_U32: u32 = 0x184c2102;

/// Splits a stream into pieces of one size, keeping the rest back until more
/// comes or the stream ends.
pub struct Chunker {
    buf: Vec<u8>,
    chunk_size: usize,
}

/// The first `k` pieces of `cs` bytes of `all`.
pub open spec fn spec_full_chunks(all: Seq<u8>, cs: nat, k: nat) -> Seq<Seq<u8>> {
    Seq::new(k, |i: int| all.subrange(i * cs, (i + 1) * cs))
}

impl Chunker {
    /// The bytes held back.
    pub closed spec fn spec_buf(&self) -> Seq<u8> {
        self.buf@
    }

    /// The piece size.
    pub closed spec fn spec_chunk_size(&self) -> nat {
        self.chunk_size as nat
    }

    /// The piece size is not zero and fewer bytes than a piece are held back.
    pub open spec fn wf(&self) -> bool {
        &&& self.spec_chunk_size() > 0
        &&& self.spec_buf().len() < self.spec_chunk_size()
    }

    /// A chunker with nothing held back.
    pub fn new(chunk_size: usize) -> (r: Self)
        requires
            chunk_size > 0,
        ensures
            r.wf(),
            r.spec_chunk_size() == chunk_size,
            r.spec_buf() == Seq::<u8>::empty(),
    {
        Chunker { buf: Vec::new(), chunk_size }
    }

    /// Takes in `data` and gives out every whole piece that the held-back
    /// bytes and `data` make, in order; the rest is held back.
    pub fn out_chunks(&mut self, data: &[u8]) -> (r: Vec<Vec<u8>>)
        requires
            old(self).wf(),
        ensures
            final(self).wf(),
            final(self).spec_chunk_size() == old(self).spec_chunk_size(),
            ({
                let all = old(self).spec_buf() + data@;
                let cs = old(self).spec_chunk_size();
                let k = r@.len();
                &&& k * cs <= all.len() < (k + 1) * cs
                &&& r@.map_values(|c: Vec<u8>| c@) == spec_full_chunks(all, cs, k)
                &&& final(self).spec_buf() == all.subrange((k * cs) as int, all.len() as int)
            }),
    {
        let ghost all = self.buf@ + data@;
        let cs = self.chunk_size;
        let mut joined = slice_to_vec(self.buf.as_slice());
        append_slice(&mut joined, data);
        assert(joined@ == all);
        let n = joined.len();
        let mut out: Vec<Vec<u8>> = Vec::new();
        let mut pos: usize = 0;
        while n - pos >= cs
            invariant
                n == all.len(),
                cs > 0,
                joined@ == all,
                pos <= n,
                pos == out@.len() * cs,
                out@.map_values(|c: Vec<u8>| c@) == spec_full_chunks(all, cs as nat, out@.len()),
            decreases n - pos,
        {
            let piece = slice_to_vec(&joined.as_slice()[pos..pos + cs]);
            let ghost piece_view = piece@;
            assert(piece_view == all.subrange(pos as int, pos + cs));
            let ghost k = out@.len();
            out.push(piece);
            proof {
                assert((k + 1) * cs == k * cs + cs) by (nonlinear_arith);
                let mv = out@.map_values(|c: Vec<u8>| c@);
                let want = spec_full_chunks(all, cs as nat, (k + 1) as nat);
                assert forall|i: int| 0 <= i < k + 1 implies mv[i] == want[i] by {
                    if i < k {
                        assert(mv[i] == spec_full_chunks(all, cs as nat, k as nat)[i]);
                    } else {
                        assert(mv[i] == piece_view);
                    }
                }
                assert(mv =~= want);
            }
            pos = pos + cs;
        }
        proof {
            let k = out@.len();
            assert((k + 1) * cs == k * cs + cs) by (nonlinear_arith);
        }
        self.buf = slice_to_vec(&joined.as_slice()[pos..n]);
        out
    }

    /// Gives out what is held back, if anything, and holds nothing back.
    pub fn final_chunk(&mut self) -> (r: Option<Vec<u8>>)
        requires
            old(self).wf(),
        ensures
            final(self).wf(),
            final(self).spec_chunk_size() == old(self).spec_chunk_size(),
            final(self).spec_buf() == Seq::<u8>::empty(),
            match r {
                Some(c) => c@ == old(self).spec_buf() && c@.len() > 0,
                None => old(self).spec_buf().len() == 0,
            },
    {
        if self.buf.len() == 0 {
            None
        } else {
            let mut c: Vec<u8> = Vec::new();
            std::mem::swap(&mut c, &mut self.buf);
            Some(c)
        }
    }
}

/// The blocks of the legacy lz4 format for `chunks`: each compressed piece
/// after its length as four little-endian bytes; `None` where one does not
/// compress.
pub open spec fn spec_lz4_blocks(chunks: Seq<Seq<u8>>) -> Option<Seq<u8>>
    decreases chunks.len(),
{
    if chunks.len() == 0 {
        Some(Seq::empty())
    } else {
        match (spec_lz4_blocks(chunks.drop_last()), lz4_block_compressed(chunks.last())) {
            (Some(a), Some(z)) => Some(a + spec_le32_bytes(z.len() as u32) + z),
            _ => None,
        }
    }
}

/// The piece that is left over at the end of a stream, if any.
pub open spec fn spec_last_piece(rest: Seq<u8>) -> Seq<Seq<u8>> {
    if rest.len() == 0 {
        Seq::empty()
    } else {
        seq![rest]
    }
}

/// Compresses pieces into `out`.
fn encode_chunks(out: &mut Vec<u8>, chunks: &Vec<Vec<u8>>) -> (r: Result<(), CompressError>)
    ensures
        match spec_lz4_blocks(chunks@.map_values(|c: Vec<u8>| c@)) {
            Some(b) => r is Ok && final(out)@ == old(out)@ + b,
            None => r == Err::<(), CompressError>(CompressError::Failed),
        },
{
    let ghost cv = chunks@.map_values(|c: Vec<u8>| c@);
    let mut i: usize = 0;
    let n = chunks.len();
    assert(cv.subrange(0, 0) =~= Seq::<Seq<u8>>::empty());
    while i < n
        invariant
            n == chunks@.len(),
            cv == chunks@.map_values(|c: Vec<u8>| c@),
            i <= n,
            spec_lz4_blocks(cv.subrange(0, i as int)) matches Some(b) && out@ == old(out)@ + b,
        decreases n - i,
    {
        let ghost s = cv.subrange(0, i + 1);
        proof {
            assert(s.drop_last() =~= cv.subrange(0, i as int));
            assert(s.last() == chunks@[i as int]@);
        }
        let z = match lz4_block_compress(chunks[i].as_slice()) {
            Ok(z) => z,
            Err(_) => {
                proof {
                    assert(spec_lz4_blocks(s) is None);
                    lemma_lz4_blocks_none_extends(cv, i as int + 1);
                    assert(cv.subrange(0, n as int) =~= cv);
                }
                return Err(CompressError::Failed);
            },
        };
        let len_bytes = le32_bytes(z.len() as u32);
        append_slice(out, len_bytes.as_slice());
        append_slice(out, z.as_slice());
        proof {
            let b = spec_lz4_blocks(cv.subrange(0, i as int))->Some_0;
            assert(out@ =~= old(out)@ + (b + spec_le32_bytes(z@.len() as u32) + z@));
        }
        i += 1;
    }
    assert(cv.subrange(0, n as int) =~= cv);
    Ok(())
}

/// Once a piece fails to compress, the blocks of any longer prefix fail too.
proof fn lemma_lz4_blocks_none_extends(cv: Seq<Seq<u8>>, k: int)
    requires
        0 <= k <= cv.len(),
        spec_lz4_blocks(cv.subrange(0, k)) is None,
    ensures
        spec_lz4_blocks(cv) is None,
    decreases cv.len() - k,
{
    if k < cv.len() {
        let s = cv.subrange(0, k + 1);
        assert(s.drop_last() =~= cv.subrange(0, k));
        lemma_lz4_blocks_none_extends(cv, k + 1);
    } else {
        assert(cv.subrange(0, k) =~= cv);
    }
}

/// A stream encoder of the legacy lz4 format: the input is cut into pieces
/// of `LZ4_BLOCK_SIZE` bytes, each compressed on its own.
pub struct Lz4BlockEncoder {
    out: Vec<u8>,
    chunker: Chunker,
    total: u32,
}

impl Lz4BlockEncoder {
    /// The bytes written so far.
    pub closed spec fn spec_out(&self) -> Seq<u8> {
        self.out@
    }

    /// The input not yet compressed.
    pub closed spec fn spec_pending(&self) -> Seq<u8> {
        self.chunker.spec_buf()
    }

    /// The count of input bytes taken in.
    pub closed spec fn spec_total(&self) -> u32 {
        self.total
    }

    /// The chunker is well formed and cuts pieces of `LZ4_BLOCK_SIZE` bytes.
    pub closed spec fn wf(&self) -> bool {
        &&& self.chunker.wf()
        &&& self.chunker.spec_chunk_size() == LZ4_BLOCK_SIZE
    }

    /// An encoder that has taken in nothing.
    pub fn new() -> (r: Self)
        ensures
            r.wf(),
            r.spec_out() == Seq::<u8>::empty(),
            r.spec_pending() == Seq::<u8>::empty(),
            r.spec_total() == 0,
    {
        Lz4BlockEncoder { out: Vec::new(), chunker: Chunker::new(LZ4_BLOCK_SIZE), total: 0 }
    }

    /// Takes in `data`, compressing every whole piece it completes.
    pub fn write(&mut self, data: &[u8]) -> (r: Result<usize, CompressError>)
        requires
            old(self).wf(),
            old(self).spec_total() + data@.len() <= u32::MAX,
        ensures
            final(self).wf(),
            final(self).spec_total() == old(self).spec_total() + data@.len(),
            ({
                let all = old(self).spec_pending() + data@;
                let k = all.len() / (LZ4_BLOCK_SIZE as nat);
                &&& final(self).spec_pending() == all.subrange(k * LZ4_BLOCK_SIZE, all.len() as int)
                &&& match spec_lz4_blocks(spec_full_chunks(all, LZ4_BLOCK_SIZE as nat, k)) {
                    Some(b) => r == Ok::<usize, CompressError>(data@.len() as usize) && final(self).spec_out()
                        == old(self).spec_out() + b,
                    None => r == Err::<usize, CompressError>(CompressError::Failed),
                }
            }),
    {
        self.total = self.total + data.len() as u32;
        let chunks = self.chunker.out_chunks(data);
        proof {
            let all = old(self).spec_pending() + data@;
            let cs = LZ4_BLOCK_SIZE as nat;
            let k = chunks@.len();
            assert(k == all.len() / cs) by (nonlinear_arith)
                requires
                    k * cs <= all.len() < (k + 1) * cs,
                    cs > 0,
            ;
        }
        match encode_chunks(&mut self.out, &chunks) {
            Ok(()) => Ok(data.len()),
            Err(e) => Err(e),
        }
    }
}

/// The bytes that close a legacy lz4 stream: the magic, then the count of
/// input bytes.
pub open spec fn spec_lz4_trailer(total: u32) -> Seq<u8> {
    spec_le32_bytes(LZ4_MAGIC_U32) + spec_le32_bytes(total)
}

/// Finishing a stream encoder into the bytes it wrote.
pub trait WriteFinish: Sized {
    /// Whether the encoder is in a state that can be finished.
    spec fn ready(&self) -> bool;

    /// The complete output.
    fn finish(self) -> Result<Vec<u8>, CompressError>
        requires
            self.ready(),
    ;
}

impl WriteFinish for Lz4BlockEncoder {
    open spec fn ready(&self) -> bool {
        self.wf()
    }

    /// Compresses what is held back, then closes the stream with the magic
    /// and the count of input bytes.
    fn finish(self) -> (r: Result<Vec<u8>, CompressError>)
        ensures
            match spec_lz4_blocks(spec_last_piece(self.spec_pending())) {
                Some(b) => r matches Ok(v) && v@ == self.spec_out() + b + spec_lz4_trailer(
                    self.spec_total(),
                ),
                None => r == Err::<Vec<u8>, CompressError>(CompressError::Failed),
            },
    {
        let mut this = self;
        let ghost pending = this.chunker.spec_buf();
        let last = this.chunker.final_chunk();
        let mut pieces: Vec<Vec<u8>> = Vec::new();
        match last {
            Some(c) => pieces.push(c),
            None => {},
        }
        assert(pieces@.map_values(|c: Vec<u8>| c@) =~= spec_last_piece(pending));
        match encode_chunks(&mut this.out, &pieces) {
            Ok(()) => {},
            Err(e) => return Err(e),
        }
        let ghost mid = this.out@;
        let m = le32_bytes(LZ4_MAGIC_U32);
        append_slice(&mut this.out, m.as_slice());
        let t = le32_bytes(this.total);
        append_slice(&mut this.out, t.as_slice());
        assert(this.out@ =~= mid + spec_lz4_trailer(this.total));
        Ok(this.out)
    }
}

/// The legacy lz4 encoding of `data`: its whole pieces, then the last piece
/// if any, then the closing magic and the input size.
pub open spec fn spec_lz4_legacy_encoded(data: Seq<u8>) -> Option<Seq<u8>> {
    let cs = LZ4_BLOCK_SIZE as nat;
    let k = data.len() / cs;
    match (
        spec_lz4_blocks(spec_full_chunks(data, cs, k)),
        spec_lz4_blocks(spec_last_piece(data.subrange((k * cs) as int, data.len() as int))),
    ) {
        (Some(a), Some(b)) => Some(a + b + spec_lz4_trailer(data.len() as u32)),
        _ => None,
    }
}

/// Compresses `data` in the legacy lz4 format.
pub fn lz4_legacy_compress(data: &[u8]) -> (r: Result<Vec<u8>, CompressError>)
    requires
        data@.len() <= u32::MAX,
    ensures
        match spec_lz4_legacy_encoded(data@) {
            Some(v) => r matches Ok(o) && o@ == v,
            None => r == Err::<Vec<u8>, CompressError>(CompressError::Failed),
        },
{
    let mut enc = Lz4BlockEncoder::new();
    assert(Seq::<u8>::empty() + data@ =~= data@);
    match enc.write(data) {
        Ok(_) => {},
        Err(e) => return Err(e),
    }
    enc.finish()
}

/// The legacy lz4 decoding of `c` from the block header at `off` on, with
/// `acc` decoded so far: a block of size zero is skipped, one that runs past
/// the end ends the stream, one that does not decompress is an error.
pub open spec fn spec_lz4_legacy_decode_from(c: Seq<u8>, off: nat, acc: Seq<u8>) -> Option<Seq<u8>>
    decreases c.len() - off,
{
    if off + 4 > c.len() {
        Some(acc)
    } else {
        let sz = spec_le32(c, off as int);
        let start = off + 4;
        if start + sz > c.len() {
            Some(acc)
        } else if sz == 0 {
            spec_lz4_legacy_decode_from(c, start, acc)
        } else {
            match lz4_block_decompressed(c.subrange(start as int, start + sz), LZ4_BLOCK_SIZE as i32) {
                None => None,
                Some(d) => spec_lz4_legacy_decode_from(c, (start + sz) as nat, acc + d),
            }
        }
    }
}

/// The legacy lz4 decoding of `c`, whose first four bytes are its magic.
pub open spec fn spec_lz4_legacy_decoded(c: Seq<u8>) -> Option<Seq<u8>> {
    spec_lz4_legacy_decode_from(c, 4, Seq::empty())
}

/// A decoder of the legacy lz4 format, which decodes everything up front.
pub struct Lz4BlockDecoder {
    buf: Vec<u8>,
    pos: usize,
}

impl Lz4BlockDecoder {
    /// The decoded bytes.
    pub closed spec fn spec_buf(&self) -> Seq<u8> {
        self.buf@
    }

    /// How many decoded bytes were read.
    pub closed spec fn spec_pos(&self) -> nat {
        self.pos as nat
    }

    /// Decodes `compressed`.
    pub fn new(compressed: &[u8]) -> (r: Result<Self, CompressError>)
        ensures
            match spec_lz4_legacy_decoded(compressed@) {
                Some(d) => r matches Ok(dec) && dec.spec_buf() == d && dec.spec_pos() == 0,
                None => r matches Err(e) && e == CompressError::Failed,
            },
    {
        let n = compressed.len();
        let mut buf: Vec<u8> = Vec::new();
        let mut off: usize = 4;
        loop
            invariant
                n == compressed@.len(),
                spec_lz4_legacy_decode_from(compressed@, off as nat, buf@) == spec_lz4_legacy_decoded(compressed@),
            decreases n - off,
        {
            if off > n || n - off < 4 {
                return Ok(Lz4BlockDecoder { buf, pos: 0 });
            }
            let sz = read_le32(compressed, off) as usize;
            let start = off + 4;
            if sz > n - start {
                return Ok(Lz4BlockDecoder { buf, pos: 0 });
            }
            if sz == 0 {
                off = start;
            } else {
                let block = &compressed[start..start + sz];
                match lz4_block_decompress(block, LZ4_BLOCK_SIZE as i32) {
                    Ok(d) => {
                        append_slice(&mut buf, d.as_slice());
                        off = start + sz;
                    },
                    Err(_) => return Err(CompressError::Failed),
                }
            }
        }
    }

    /// Reads up to `len` of the decoded bytes that were not read yet.
    pub fn read(&mut self, len: usize) -> (r: Vec<u8>)
        requires
            old(self).spec_pos() <= old(self).spec_buf().len(),
        ensures
            final(self).spec_buf() == old(self).spec_buf(),
            ({
                let rem = old(self).spec_buf().len() - old(self).spec_pos();
                let k = if len < rem { len as int } else { rem };
                &&& r@ == old(self).spec_buf().subrange(old(self).spec_pos() as int, old(self).spec_pos() + k)
                &&& final(self).spec_pos() == old(self).spec_pos() + k
            }),
    {
        let rem = self.buf.len() - self.pos;
        let k = if len < rem {
            len
        } else {
            rem
        };
        let r = slice_to_vec(&self.buf.as_slice()[self.pos..self.pos + k]);
        self.pos = self.pos + k;
        r
    }

    /// All decoded bytes.
    pub fn into_data(self) -> (r: Vec<u8>)
        ensures
            r@ == self.spec_buf(),
    {
        self.buf
    }
}

/// What decompressing `data` in `format` gives.
pub open spec fn spec_decompressed(format: CompressFormat, data: Seq<u8>) -> Result<Seq<u8>, CompressError> {
    let d = match format {
        CompressFormat::GZIP | CompressFormat::ZOPFLI => gzip_decoded(data),
        CompressFormat::XZ => xz_decoded(data),
        CompressFormat::LZMA => lzma_decoded(data),
        CompressFormat::BZIP2 => bzip2_decoded(data),
        CompressFormat::LZ4 => lz4_frame_decoded(data),
        _ => spec_lz4_legacy_decoded(data),
    };
    if !spec_is_compressed(format) {
        Err(CompressError::Unsupported(format))
    } else {
        match d {
            Some(v) => Ok(v),
            None => Err(CompressError::Failed),
        }
    }
}

/// Decompresses `data`, a stream in `format`.
pub fn get_decoder(format: CompressFormat, data: &[u8]) -> (r: Result<Vec<u8>, CompressError>)
    ensures
        match spec_decompressed(format, data@) {
            Ok(v) => r matches Ok(o) && o@ == v,
            Err(e) => r == Err::<Vec<u8>, CompressError>(e),
        },
{
    let res = match format {
        CompressFormat::GZIP | CompressFormat::ZOPFLI => gzip_decode(data),
        CompressFormat::XZ => xz_decode(data),
        CompressFormat::LZMA => lzma_decode(data),
        CompressFormat::BZIP2 => bzip2_decode(data),
        CompressFormat::LZ4 => lz4_frame_decode(data),
        CompressFormat::LZ4_LEGACY | CompressFormat::LZ4_LG => {
            return match Lz4BlockDecoder::new(data) {
                Ok(d) => Ok(d.into_data()),
                Err(e) => Err(e),
            };
        },
        _ => return Err(CompressError::Unsupported(format)),
    };
    match res {
        Ok(v) => Ok(v),
        Err(_) => Err(CompressError::Failed),
    }
}

/// What compressing `data` in `format` gives, where the codec succeeds.
pub open spec fn spec_compressed(format: CompressFormat, data: Seq<u8>) -> Option<Seq<u8>> {
    match format {
        CompressFormat::XZ => xz_encoded(data),
        CompressFormat::LZMA => lzma_encoded(data),
        CompressFormat::BZIP2 => bzip2_encoded(data),
        CompressFormat::LZ4 => lz4_frame_encoded(data),
        CompressFormat::ZOPFLI => zopfli_encoded(data),
        CompressFormat::GZIP => gzip_encoded(data),
        _ => spec_lz4_legacy_encoded(data),
    }
}

/// Compresses `data` into a stream in `format`; it fails where the codec
/// does (the legacy lz4 format where a piece does not compress).
pub fn get_encoder(format: CompressFormat, data: &[u8]) -> (r: Result<Vec<u8>, CompressError>)
    requires
        (format == CompressFormat::LZ4_LEGACY || format == CompressFormat::LZ4_LG) ==> data@.len() <= u32::MAX,
    ensures
        !spec_is_compressed(format) ==> r == Err::<Vec<u8>, CompressError>(CompressError::Unsupported(format)),
        spec_is_compressed(format) ==> match spec_compressed(format, data@) {
            Some(v) => r matches Ok(o) && o@ == v,
            None => r == Err::<Vec<u8>, CompressError>(CompressError::Failed),
        },
{
    let res = match format {
        CompressFormat::XZ => xz_encode(data),
        CompressFormat::LZMA => lzma_encode(data),
        CompressFormat::BZIP2 => bzip2_encode(data),
        CompressFormat::LZ4 => lz4_frame_encode(data),
        CompressFormat::LZ4_LEGACY | CompressFormat::LZ4_LG => return lz4_legacy_compress(data),
        CompressFormat::ZOPFLI => zopfli_encode(data),
        CompressFormat::GZIP => gzip_encode(data),
        _ => return Err(CompressError::Unsupported(format)),
    };
    match res {
        Ok(v) => Ok(v),
        Err(_) => Err(CompressError::Failed),
    }
}

} // verus!
