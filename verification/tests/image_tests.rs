use myboot::compress::CompressFormat;
use myboot::parser::{BootHeader, BootImage, BootImageVersion, ParseError};
use myboot::patcher::{BootImagePatchOption, PatchError};
use myboot::sign::sha1_hash;

const PAGE: usize = 2048;

fn put32(d: &mut [u8], off: usize, v: u32) {
    d[off..off + 4].copy_from_slice(&v.to_le_bytes());
}

/// A version 0 image with a kernel of five bytes and a ramdisk of three.
fn v0_image() -> Vec<u8> {
    let mut d = vec![0u8; 3 * PAGE];
    d[0..8].copy_from_slice(b"ANDROID!");
    put32(&mut d, 8, 5);
    put32(&mut d, 16, 3);
    put32(&mut d, 36, PAGE as u32);
    put32(&mut d, 44, (11 << 25) | (2 << 18) | (0 << 11) | (21 << 4) | 3);
    d[48..52].copy_from_slice(b"test");
    d[64..72].copy_from_slice(b"console=");
    d[PAGE..PAGE + 5].copy_from_slice(b"KERNL");
    d[2 * PAGE..2 * PAGE + 3].copy_from_slice(b"RAM");
    d
}

#[test]
fn header_parse_errors() {
    assert!(matches!(BootHeader::parse(&[0u8; 4]), Err(ParseError::TooSmall)));
    assert!(matches!(BootHeader::parse(b"XXXXXXXXXXXX"), Err(ParseError::BadMagic)));
    assert!(matches!(BootHeader::parse(b"ANDROID!\0\0\0\0"), Err(ParseError::TruncatedHeader)));
}

#[test]
fn header_fields_of_v0() {
    let d = v0_image();
    let h = BootHeader::parse(&d).unwrap();
    assert_eq!(h.get_version(), BootImageVersion::Android(0));
    assert_eq!(h.get_kernel_size(), 5);
    assert_eq!(h.get_ramdisk_size(), 3);
    assert_eq!(h.page_size_val(), PAGE as u32);
    assert_eq!(h.hdr_space(), PAGE);
    assert!(!h.is_vendor());
    assert!(h.has_id());
    assert!(!h.has_dtb_size());
    assert_eq!(myboot::utils::trim_end(h.get_name()), b"test");
    let (os, patch) = h.get_os_version().unwrap();
    assert_eq!((os.a, os.b, os.c), (11, 2, 0));
    assert_eq!((patch.year, patch.month), (2021, 3));
}

#[test]
fn image_parse_splits_parts() {
    let d = v0_image();
    let img = BootImage::parse(&d).unwrap();
    assert_eq!(img.payload_offset, 0);
    let k = img.blocks.kernel.as_ref().unwrap();
    assert_eq!(k.data, b"KERNL");
    assert_eq!(k.compress_format, CompressFormat::UNKNOWN);
    let r = img.blocks.ramdisk.as_ref().unwrap();
    assert_eq!(r.data, b"RAM");
    assert!(r.vendor_entries.is_none());
    assert!(img.avb_info.is_none());
    assert!(!img.is_dhtb && !img.is_blob && !img.sha256_id);
}

#[test]
fn image_parse_rejects_garbage() {
    assert!(BootImage::parse(b"not a boot image at all").is_err());
}

#[test]
fn repack_with_new_ramdisk() {
    let d = v0_image();
    let img = BootImage::parse(&d).unwrap();
    let mut p = BootImagePatchOption::new(&img);
    p.replace_ramdisk(b"NEWRAMDISK".to_vec());
    assert!(p.can_patch());
    let out = p.patch().unwrap();

    let mut expected = d.clone();
    put32(&mut expected, 16, 10);
    expected[2 * PAGE..2 * PAGE + 10].copy_from_slice(b"NEWRAMDISK");
    let mut msg = Vec::new();
    msg.extend_from_slice(&5u32.to_le_bytes());
    msg.extend_from_slice(&10u32.to_le_bytes());
    msg.extend_from_slice(&0u32.to_le_bytes());
    let mut id = sha1_hash(&msg).to_vec();
    id.resize(32, 0);
    expected[576..608].copy_from_slice(&id);
    assert_eq!(out.len(), expected.len());
    assert_eq!(out, expected);
}

#[test]
fn repack_unchanged_refreshes_id() {
    let d = v0_image();
    let img = BootImage::parse(&d).unwrap();
    let out = BootImagePatchOption::new(&img).patch().unwrap();
    let mut msg = Vec::new();
    msg.extend_from_slice(&5u32.to_le_bytes());
    msg.extend_from_slice(&3u32.to_le_bytes());
    msg.extend_from_slice(&0u32.to_le_bytes());
    let mut expected = d.clone();
    let mut id = sha1_hash(&msg).to_vec();
    id.resize(32, 0);
    expected[576..608].copy_from_slice(&id);
    assert_eq!(out, expected);
    let again = BootImage::parse(&out).unwrap();
    assert_eq!(again.blocks.ramdisk.as_ref().unwrap().data, b"RAM");
}

#[test]
fn repack_overrides_and_bigger_kernel() {
    let d = v0_image();
    let img = BootImage::parse(&d).unwrap();
    let mut p = BootImagePatchOption::new(&img);
    p.override_cmdline(b"quiet".to_vec()).override_os_version(13, 5).replace_kernel(vec![7u8; PAGE + 1]);
    let out = p.patch().unwrap();
    assert_eq!(&out[64..69], b"quiet");
    assert!(out[69..64 + 512].iter().all(|&b| b == 0));
    assert_eq!(u32::from_le_bytes(out[44..48].try_into().unwrap()), (13 << 25) | (5 << 4));
    assert_eq!(u32::from_le_bytes(out[8..12].try_into().unwrap()), PAGE as u32 + 1);
    assert_eq!(out.len(), 4 * PAGE);
    assert_eq!(&out[3 * PAGE..3 * PAGE + 3], b"RAM");
    let again = BootImage::parse(&out).unwrap();
    assert_eq!(again.blocks.kernel.as_ref().unwrap().data.len(), PAGE + 1);
}

#[test]
fn repack_rejects_long_cmdline() {
    let d = v0_image();
    let img = BootImage::parse(&d).unwrap();
    let mut p = BootImagePatchOption::new(&img);
    p.override_cmdline(vec![b'a'; 513]);
    assert!(matches!(p.patch(), Err(PatchError::CmdlineTooLong)));
}

#[test]
fn repack_compresses_like_the_source_part() {
    let mut d = v0_image();
    let gz = myboot::compress::get_encoder(CompressFormat::GZIP, b"source ramdisk").unwrap();
    put32(&mut d, 16, gz.len() as u32);
    d[2 * PAGE..2 * PAGE + gz.len()].copy_from_slice(&gz);
    let img = BootImage::parse(&d).unwrap();
    assert_eq!(img.blocks.ramdisk.as_ref().unwrap().compress_format, CompressFormat::GZIP);
    let mut p = BootImagePatchOption::new(&img);
    p.replace_ramdisk(b"new plain ramdisk".to_vec());
    let out = p.patch().unwrap();
    let size = u32::from_le_bytes(out[16..20].try_into().unwrap()) as usize;
    let stored = &out[2 * PAGE..2 * PAGE + size];
    assert_eq!(myboot::compress::get_decoder(CompressFormat::GZIP, stored).unwrap(), b"new plain ramdisk");
    let mut q = BootImagePatchOption::new(&img);
    q.replace_ramdisk(b"new plain ramdisk".to_vec()).no_compress(true);
    let raw = q.patch().unwrap();
    assert_eq!(&raw[2 * PAGE..2 * PAGE + 17], b"new plain ramdisk");
}

#[test]
fn repack_never_shrinks() {
    let d = v0_image();
    let img = BootImage::parse(&d).unwrap();
    let mut p = BootImagePatchOption::new(&img);
    p.replace_ramdisk(Vec::new()).replace_kernel(b"K".to_vec());
    let out = p.patch().unwrap();
    assert!(out.len() >= d.len());
    assert_eq!(out.len(), d.len());
    assert_eq!(u32::from_le_bytes(out[16..20].try_into().unwrap()), 0);
    assert!(out[2 * PAGE..].iter().all(|&b| b == 0));
}

/// The v0 image followed by a vbmeta image and an AVB footer.
fn v0_image_with_avb() -> Vec<u8> {
    let mut d = v0_image();
    let vbmeta_off = d.len();
    let mut vbmeta = vec![0u8; 256];
    vbmeta[0..4].copy_from_slice(b"AVB0");
    d.extend_from_slice(&vbmeta);
    d.resize(vbmeta_off + 8192, 0);
    let n = d.len();
    let f = n - 64;
    d[f..f + 4].copy_from_slice(b"AVBf");
    d[f + 12..f + 20].copy_from_slice(&(vbmeta_off as u64).to_be_bytes());
    d[f + 20..f + 28].copy_from_slice(&(vbmeta_off as u64).to_be_bytes());
    d[f + 28..f + 36].copy_from_slice(&256u64.to_be_bytes());
    d
}

#[test]
fn avb_footer_points_at_vbmeta() {
    let d = v0_image_with_avb();
    let img = BootImage::parse(&d).unwrap();
    let a = img.avb_info.as_ref().unwrap();
    let pd = &d[img.payload_offset..];
    let off = a.get_vbmeta_offset() as usize;
    let size = a.get_vbmeta_size() as usize;
    assert_eq!(off, 3 * PAGE);
    assert!(pd[off..].starts_with(b"AVB0"));
    assert_eq!(a.header_data, &pd[off..off + size]);
    assert_eq!(a.footer_data.len(), 64);
    assert!(a.footer_data.starts_with(b"AVBf"));
    assert_eq!(a.footer_data, &pd[pd.len() - 64..]);
}
