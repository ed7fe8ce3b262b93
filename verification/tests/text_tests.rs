use myboot::dtb::{dtb_patch_initramfs, dtb_patch_verity, DtbError};
use myboot::hexpatch::{hex2byte, hexpatch, HexError};
use myboot::parser::{BootImageVersion, OsVersion, PatchLevel, VendorRamdiskType};
use myboot::utils::{align_padding, align_to, guess_lzma, trim_end};

#[test]
fn hex_decoding() {
    assert_eq!(hex2byte(" 0aFF\n"), Ok(vec![0x0a, 0xff]));
    assert_eq!(hex2byte("+a0b"), Ok(vec![0x0a, 0x0b]));
    assert_eq!(hex2byte("abc"), Err(HexError::OddLength));
    assert_eq!(hex2byte("zz"), Err(HexError::InvalidDigit));
    assert_eq!(hex2byte(""), Ok(vec![]));
}

#[test]
fn hexpatch_replaces_each_match() {
    let mut data = vec![1, 2, 3, 1, 2, 3, 1, 2];
    let offs = hexpatch(&mut data, "0102", "0909").unwrap();
    assert_eq!(offs, vec![0, 3, 6]);
    assert_eq!(data, vec![9, 9, 3, 9, 9, 3, 9, 9]);
    let mut tail = vec![5, 1, 2];
    let offs2 = hexpatch(&mut tail, "0102", "070809").unwrap();
    assert_eq!(offs2, vec![1]);
    assert_eq!(tail, vec![5, 7, 8]);
    let mut none = vec![1, 2];
    assert_eq!(hexpatch(&mut none, "", "00"), Err(HexError::EmptyPattern));
    assert_eq!(hexpatch(&mut none, "0", "00"), Err(HexError::OddLength));
    assert_eq!(hexpatch(&mut none, "00", "x0"), Err(HexError::InvalidDigit));
    assert_eq!(none, vec![1, 2]);
}

#[test]
fn version_texts() {
    assert_eq!(BootImageVersion::Android(2).to_string(), "Android v2");
    assert_eq!(BootImageVersion::Vendor(4).to_string(), "Vendor v4");
    assert_eq!(OsVersion { a: 13, b: 0, c: 1 }.to_string(), "13.0.1");
    assert_eq!(PatchLevel { year: 2023, month: 5 }.to_string(), "2023-05");
    assert_eq!(PatchLevel { year: 2023, month: 11 }.to_string(), "2023-11");
    assert_eq!(VendorRamdiskType::NoType.to_string(), "none");
    assert_eq!(VendorRamdiskType::Dlkm.to_string(), "dlkm");
    assert_eq!(VendorRamdiskType::Unknown(7).to_string(), "unknown(7)");
    assert_eq!(VendorRamdiskType::Recovery.to_u32(), 2);
    assert_eq!(VendorRamdiskType::Unknown(9).to_u32(), 9);
}

#[test]
fn alignment() {
    assert_eq!(align_to(0, 4096), 0);
    assert_eq!(align_to(1, 4096), 4096);
    assert_eq!(align_to(4096, 4096), 4096);
    assert_eq!(align_padding(5, 4), 3);
    assert_eq!(align_padding(8, 4), 0);
}

#[test]
fn trimming_and_lzma_guess() {
    assert_eq!(trim_end(b"name\0\0"), b"name");
    assert_eq!(trim_end(b"\0\0"), b"");
    let mut lzma = vec![0x5d, 0, 0, 0x80, 0];
    lzma.extend_from_slice(&[0xff; 8]);
    lzma.push(1);
    assert!(guess_lzma(&lzma));
    lzma[2] = 1;
    assert!(!guess_lzma(&lzma));
    assert!(!guess_lzma(&[0x5d; 13]));
}

fn be(v: u32) -> [u8; 4] {
    v.to_be_bytes()
}

fn fdt_with_prop(name: &str, value: &[u8]) -> Vec<u8> {
    let mut strings = name.as_bytes().to_vec();
    strings.push(0);
    let mut st = Vec::new();
    st.extend_from_slice(&be(1));
    st.extend_from_slice(&[0, 0, 0, 0]);
    st.extend_from_slice(&be(3));
    st.extend_from_slice(&be(value.len() as u32));
    st.extend_from_slice(&be(0));
    st.extend_from_slice(value);
    while st.len() % 4 != 0 {
        st.push(0);
    }
    st.extend_from_slice(&be(2));
    st.extend_from_slice(&be(9));
    let off_struct = 0x48u32;
    let off_strings = off_struct + st.len() as u32;
    let total = off_strings + strings.len() as u32;
    let mut d = Vec::new();
    d.extend_from_slice(&be(0xd00dfeed));
    d.extend_from_slice(&be(total));
    d.extend_from_slice(&be(off_struct));
    d.extend_from_slice(&be(off_strings));
    d.resize(0x48, 0);
    d.extend_from_slice(&st);
    d.extend_from_slice(&strings);
    d
}

#[test]
fn dtb_without_tree_is_untouched() {
    let mut d = vec![0u8; 64];
    assert_eq!(dtb_patch_initramfs(&mut d), Ok(false));
    assert_eq!(dtb_patch_verity(&mut d), Ok(false));
    assert_eq!(d, vec![0u8; 64]);
}

#[test]
fn dtb_struct_offset_out_of_range() {
    let mut d = vec![0u8; 0x100];
    d[0..4].copy_from_slice(&be(0xd00dfeed));
    d[4..8].copy_from_slice(&be(0x100));
    d[8..12].copy_from_slice(&be(0xffff));
    d[12..16].copy_from_slice(&be(0x80));
    assert_eq!(dtb_patch_initramfs(&mut d.clone()), Err(DtbError::OutOfBounds));
    assert_eq!(dtb_patch_verity(&mut d), Err(DtbError::OutOfBounds));
}

#[test]
fn dtb_initrd_property_cleared() {
    let mut d = fdt_with_prop("linux,initrd-start", &be(0x1234));
    let before = d.clone();
    assert_eq!(dtb_patch_initramfs(&mut d), Ok(true));
    assert_eq!(d.len(), before.len());
    assert_ne!(d, before);
}

#[test]
fn dtb_verity_option_dropped() {
    let mut d = fdt_with_prop("fstab", b"wait,verify,check\0");
    let before = d.clone();
    assert_eq!(dtb_patch_verity(&mut d), Ok(true));
    assert_eq!(d.len(), before.len());
    assert_ne!(d, before);
}
