use myboot::compress::{
    fmt2name, get_decoder, get_encoder, is_compressed, lz4_legacy_compress, parse_compress_format,
    Chunker, CompressError, CompressFormat, Lz4BlockDecoder,
};

fn sample() -> Vec<u8> {
    let mut v = Vec::new();
    for i in 0..4000u32 {
        v.extend_from_slice(format!("line {} of the sample text\n", i % 37).as_bytes());
    }
    v
}

#[test]
fn detects_formats() {
    assert_eq!(parse_compress_format(&[0x1f, 0x8b, 0x08, 0x00]), CompressFormat::GZIP);
    assert_eq!(parse_compress_format(&[0xfd, b'7', b'z', b'X', b'Z', 0]), CompressFormat::XZ);
    assert_eq!(parse_compress_format(b"BZh91AY"), CompressFormat::BZIP2);
    assert_eq!(parse_compress_format(&[0x04, 0x22, 0x4d, 0x18, 0]), CompressFormat::LZ4);
    assert_eq!(parse_compress_format(&[0x02, 0x21, 0x4c, 0x18, 0]), CompressFormat::LZ4_LEGACY);
    assert_eq!(parse_compress_format(&[0xd0, 0x0d, 0xfe, 0xed]), CompressFormat::DTB);
    assert_eq!(parse_compress_format(b"x"), CompressFormat::UNKNOWN);
    assert_eq!(parse_compress_format(b"plain text"), CompressFormat::UNKNOWN);
    let mut lzma = vec![0x5d, 0, 0, 0x80, 0];
    lzma.extend_from_slice(&[0xff; 8]);
    lzma.push(0);
    assert_eq!(parse_compress_format(&lzma), CompressFormat::LZMA);
}

#[test]
fn compressed_formats_and_names() {
    assert!(is_compressed(CompressFormat::GZIP));
    assert!(is_compressed(CompressFormat::LZ4_LG));
    assert!(!is_compressed(CompressFormat::LZOP));
    assert!(!is_compressed(CompressFormat::DTB));
    assert_eq!(fmt2name(CompressFormat::UNKNOWN), "raw");
    assert_eq!(fmt2name(CompressFormat::LZ4_LEGACY), "lz4_legacy");
    assert_eq!(fmt2name(CompressFormat::ZIMAGE), "zimage");
}

fn roundtrip(fmt: CompressFormat, dec: CompressFormat) {
    let data = sample();
    let enc = get_encoder(fmt, &data).unwrap();
    assert_ne!(enc, data);
    assert!(enc.len() < data.len());
    assert_eq!(parse_compress_format(&enc), dec);
    assert_eq!(get_decoder(dec, &enc).unwrap(), data);
}

#[test]
fn gzip_roundtrip() {
    roundtrip(CompressFormat::GZIP, CompressFormat::GZIP);
}

#[test]
fn zopfli_roundtrip() {
    roundtrip(CompressFormat::ZOPFLI, CompressFormat::GZIP);
}

#[test]
fn xz_roundtrip() {
    roundtrip(CompressFormat::XZ, CompressFormat::XZ);
}

#[test]
fn bzip2_roundtrip() {
    roundtrip(CompressFormat::BZIP2, CompressFormat::BZIP2);
}

#[test]
fn lz4_frame_roundtrip() {
    roundtrip(CompressFormat::LZ4, CompressFormat::LZ4);
}

#[test]
fn lzma_roundtrip() {
    let data = sample();
    let enc = get_encoder(CompressFormat::LZMA, &data).unwrap();
    assert_ne!(enc, data);
    assert_eq!(get_decoder(CompressFormat::LZMA, &enc).unwrap(), data);
}

#[test]
fn lz4_legacy_layout() {
    let data = sample();
    let enc = lz4_legacy_compress(&data).unwrap();
    assert_eq!(get_encoder(CompressFormat::LZ4_LEGACY, &data).unwrap(), enc);
    let n = enc.len();
    assert_eq!(&enc[n - 8..n - 4], &0x184c2102u32.to_le_bytes());
    assert_eq!(&enc[n - 4..], &(data.len() as u32).to_le_bytes());
    let block = u32::from_le_bytes(enc[0..4].try_into().unwrap()) as usize;
    assert_eq!(block + 12, n);
    // The decoder takes the first four bytes for the magic: with the magic in
    // front the stream reads back.
    let mut framed = 0x184c2102u32.to_le_bytes().to_vec();
    framed.extend_from_slice(&enc);
    assert_eq!(get_decoder(CompressFormat::LZ4_LEGACY, &framed).unwrap(), data);
    // Without it the first block is skipped.
    assert_ne!(get_decoder(CompressFormat::LZ4_LEGACY, &enc), Ok(data.clone()));
}

#[test]
fn lz4_legacy_of_nothing() {
    let enc = lz4_legacy_compress(&[]).unwrap();
    let mut expected = 0x184c2102u32.to_le_bytes().to_vec();
    expected.extend_from_slice(&[0, 0, 0, 0]);
    assert_eq!(enc, expected);
}

#[test]
fn lz4_block_decoder_reads_in_pieces() {
    let data = b"hello hello hello hello".to_vec();
    let enc = lz4_legacy_compress(&data).unwrap();
    let mut framed = 0x184c2102u32.to_le_bytes().to_vec();
    framed.extend_from_slice(&enc);
    let mut dec = Lz4BlockDecoder::new(&framed).unwrap();
    assert_eq!(dec.read(5), b"hello".to_vec());
    assert_eq!(dec.read(100), b" hello hello hello".to_vec());
    assert_eq!(dec.read(4), Vec::<u8>::new());
}

#[test]
fn lz4_block_decoder_skips_empty_and_stops_at_short_block() {
    let mut framed = vec![0u8; 4];
    framed.extend_from_slice(&0u32.to_le_bytes());
    framed.extend_from_slice(&100u32.to_le_bytes());
    framed.extend_from_slice(b"short");
    let dec = Lz4BlockDecoder::new(&framed).unwrap();
    assert_eq!(dec.into_data(), Vec::<u8>::new());
}

#[test]
fn decoder_errors() {
    assert_eq!(
        get_decoder(CompressFormat::UNKNOWN, b"abc"),
        Err(CompressError::Unsupported(CompressFormat::UNKNOWN))
    );
    assert_eq!(get_decoder(CompressFormat::GZIP, &[0x1f, 0x8b, 0x08, 0x00, 1, 2, 3]), Err(CompressError::Failed));
    let mut bad_block = vec![0u8; 4];
    bad_block.extend_from_slice(&3u32.to_le_bytes());
    bad_block.extend_from_slice(&[0xff, 0xff, 0xff]);
    assert_eq!(get_decoder(CompressFormat::LZ4_LEGACY, &bad_block), Err(CompressError::Failed));
    assert_eq!(
        get_encoder(CompressFormat::DTB, b"abc"),
        Err(CompressError::Unsupported(CompressFormat::DTB))
    );
}

#[test]
fn chunker_cuts_pieces() {
    let mut c = Chunker::new(4);
    let out = c.out_chunks(b"abcdefghij");
    assert_eq!(out, vec![b"abcd".to_vec(), b"efgh".to_vec()]);
    let out2 = c.out_chunks(b"kl");
    assert_eq!(out2, vec![b"ijkl".to_vec()]);
    assert_eq!(c.final_chunk(), None);
    let out3 = c.out_chunks(b"m");
    assert!(out3.is_empty());
    assert_eq!(c.final_chunk(), Some(b"m".to_vec()));
    assert_eq!(c.final_chunk(), None);
}

#[test]
fn format_names_are_distinct() {
    let all = [
        CompressFormat::UNKNOWN,
        CompressFormat::GZIP,
        CompressFormat::ZOPFLI,
        CompressFormat::XZ,
        CompressFormat::LZMA,
        CompressFormat::BZIP2,
        CompressFormat::LZ4,
        CompressFormat::LZ4_LEGACY,
        CompressFormat::LZ4_LG,
        CompressFormat::LZOP,
        CompressFormat::MTK,
        CompressFormat::DTB,
        CompressFormat::ZIMAGE,
    ];
    for (i, f) in all.iter().enumerate() {
        for (j, g) in all.iter().enumerate() {
            assert_eq!(i == j, fmt2name(*f) == fmt2name(*g));
        }
    }
}

#[test]
fn detected_format_ignores_what_follows() {
    let gz = get_encoder(CompressFormat::GZIP, b"some data").unwrap();
    assert_eq!(parse_compress_format(&gz[..2]), CompressFormat::GZIP);
    assert_eq!(parse_compress_format(&gz), CompressFormat::GZIP);
    let mut xz = vec![0xfd, 0x37, 0x7a, 0x58, 0x5a];
    assert_eq!(parse_compress_format(&xz), CompressFormat::XZ);
    xz.extend_from_slice(b"anything");
    assert_eq!(parse_compress_format(&xz), CompressFormat::XZ);
}
