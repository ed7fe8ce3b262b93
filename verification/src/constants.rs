//! Magic numbers and sizes of the boot image formats.
use vstd::prelude::*;

verus! {

pub const BOOT_MAGIC_SIZE: usize = 8;
pub const BOOT_NAME_SIZE: usize = 16;
pub const BOOT_ARGS_SIZE: usize = 512;
pub const BOOT_EXTRA_ARGS_SIZE: usize = 1024;
pub const BOOT_ID_SIZE: usize = 32;
pub const VENDOR_BOOT_ARGS_SIZE: usize = 2048;
pub const VENDOR_RAMDISK_NAME_SIZE: usize = 32;
pub const VENDOR_RAMDISK_TABLE_ENTRY_BOARD_ID_SIZE: usize = 16;
pub const AVB_FOOTER_SIZE: usize = 64;
pub const AVB_RELEASE_STRING_SIZE: usize = 48;
pub const AMONET_MICROLOADER_SZ: usize = 1024;
pub const NOOKHD_PRE_HEADER_SZ: usize = 1048576;
pub const ACCLAIM_PRE_HEADER_SZ: usize = 262144;
pub const SHA256_DIGEST_SIZE: usize = 32;
pub const SHA1_DIGEST_SIZE: usize = 20;

pub const VENDOR_RAMDISK_TYPE_NONE: u32 = 0;
pub const VENDOR_RAMDISK_TYPE_PLATFORM: u32 = 1;
pub const VENDOR_RAMDISK_TYPE_RECOVERY: u32 = 2;
pub const VENDOR_RAMDISK_TYPE_DLKM: u32 = 3;

/// Magic of an Android boot image header.
pub open spec fn spec_boot_magic() -> Seq<u8> {
    seq![0x41u8, 0x4e, 0x44, 0x52, 0x4f, 0x49, 0x44, 0x21]
}

/// Magic of an Android boot image header.
pub fn boot_magic() -> (r: &'static [u8])
    ensures
        r@ == spec_boot_magic(),
{
    let a: &'static [u8; 8] = &[0x41u8, 0x4e, 0x44, 0x52, 0x4f, 0x49, 0x44, 0x21];
    let r: &'static [u8] = a.as_slice();
    assert(r@ =~= spec_boot_magic());
    r
}

/// Magic of a vendor boot image header.
pub open spec fn spec_vendor_boot_magic() -> Seq<u8> {
    seq![0x56u8, 0x4e, 0x44, 0x52, 0x42, 0x4f, 0x4f, 0x54]
}

/// Magic of a vendor boot image header.
pub fn vendor_boot_magic() -> (r: &'static [u8])
    ensures
        r@ == spec_vendor_boot_magic(),
{
    let a: &'static [u8; 8] = &[0x56u8, 0x4e, 0x44, 0x52, 0x42, 0x4f, 0x4f, 0x54];
    let r: &'static [u8] = a.as_slice();
    assert(r@ =~= spec_vendor_boot_magic());
    r
}

/// Magic of a ChromeOS wrapper.
pub open spec fn spec_chromeos_magic() -> Seq<u8> {
    seq![0x43u8, 0x48, 0x52, 0x4f, 0x4d, 0x45, 0x4f, 0x53]
}

/// Magic of a ChromeOS wrapper.
pub fn chromeos_magic() -> (r: &'static [u8])
    ensures
        r@ == spec_chromeos_magic(),
{
    let a: &'static [u8; 8] = &[0x43u8, 0x48, 0x52, 0x4f, 0x4d, 0x45, 0x4f, 0x53];
    let r: &'static [u8] = a.as_slice();
    assert(r@ =~= spec_chromeos_magic());
    r
}

/// Magic of an AVB footer.
pub open spec fn spec_avb_footer_magic() -> Seq<u8> {
    seq![0x41u8, 0x56, 0x42, 0x66]
}

/// Magic of an AVB footer.
pub fn avb_footer_magic() -> (r: &'static [u8])
    ensures
        r@ == spec_avb_footer_magic(),
{
    let a: &'static [u8; 4] = &[0x41u8, 0x56, 0x42, 0x66];
    let r: &'static [u8] = a.as_slice();
    assert(r@ =~= spec_avb_footer_magic());
    r
}

/// Magic of an AVB vbmeta image.
pub open spec fn spec_avb_magic() -> Seq<u8> {
    seq![0x41u8, 0x56, 0x42, 0x30]
}

/// Magic of an AVB vbmeta image.
pub fn avb_magic() -> (r: &'static [u8])
    ensures
        r@ == spec_avb_magic(),
{
    let a: &'static [u8; 4] = &[0x41u8, 0x56, 0x42, 0x30];
    let r: &'static [u8] = a.as_slice();
    assert(r@ =~= spec_avb_magic());
    r
}

/// Magic of a MediaTek block header.
pub open spec fn spec_mtk_magic() -> Seq<u8> {
    seq![0x88u8, 0x16, 0x88, 0x58]
}

/// Magic of a MediaTek block header.
pub fn mtk_magic() -> (r: &'static [u8])
    ensures
        r@ == spec_mtk_magic(),
{
    let a: &'static [u8; 4] = &[0x88u8, 0x16, 0x88, 0x58];
    let r: &'static [u8] = a.as_slice();
    assert(r@ =~= spec_mtk_magic());
    r
}

/// Magic of a DHTB wrapper.
pub open spec fn spec_dhtb_magic() -> Seq<u8> {
    seq![0x44u8, 0x48, 0x54, 0x42, 0x00, 0x00, 0x00, 0x00]
}

/// Magic of a DHTB wrapper.
pub fn dhtb_magic() -> (r: &'static [u8])
    ensures
        r@ == spec_dhtb_magic(),
{
    let a: &'static [u8; 8] = &[0x44u8, 0x48, 0x54, 0x42, 0x00, 0x00, 0x00, 0x00];
    let r: &'static [u8] = a.as_slice();
    assert(r@ =~= spec_dhtb_magic());
    r
}

/// Magic of a Tegra signed blob.
pub open spec fn spec_blob_magic() -> Seq<u8> {
    seq![0x2du8, 0x53, 0x49, 0x47, 0x4e, 0x45, 0x44, 0x2d, 0x42, 0x59, 0x2d, 0x53, 0x49, 0x47, 0x4e, 0x42, 0x4c, 0x4f, 0x42, 0x2d]
}

/// Magic of a Tegra signed blob.
pub fn blob_magic() -> (r: &'static [u8])
    ensures
        r@ == spec_blob_magic(),
{
    let a: &'static [u8; 20] = &[0x2du8, 0x53, 0x49, 0x47, 0x4e, 0x45, 0x44, 0x2d, 0x42, 0x59, 0x2d, 0x53, 0x49, 0x47, 0x4e, 0x42, 0x4c, 0x4f, 0x42, 0x2d];
    let r: &'static [u8] = a.as_slice();
    assert(r@ =~= spec_blob_magic());
    r
}

/// Samsung SEAndroid tail marker.
pub open spec fn spec_seandroid_magic() -> Seq<u8> {
    seq![0x53u8, 0x45, 0x41, 0x4e, 0x44, 0x52, 0x4f, 0x49, 0x44, 0x45, 0x4e, 0x46, 0x4f, 0x52, 0x43, 0x45]
}

/// Samsung SEAndroid tail marker.
pub fn seandroid_magic() -> (r: &'static [u8])
    ensures
        r@ == spec_seandroid_magic(),
{
    let a: &'static [u8; 16] = &[0x53u8, 0x45, 0x41, 0x4e, 0x44, 0x52, 0x4f, 0x49, 0x44, 0x45, 0x4e, 0x46, 0x4f, 0x52, 0x43, 0x45];
    let r: &'static [u8] = a.as_slice();
    assert(r@ =~= spec_seandroid_magic());
    r
}

/// LG bump tail marker.
pub open spec fn spec_lg_bump_magic() -> Seq<u8> {
    seq![0x41u8, 0xa9, 0xe4, 0x67, 0x74, 0x4d, 0x1d, 0x1b, 0xa4, 0x29, 0xf2, 0xec, 0xea, 0x65, 0x52, 0x79]
}

/// LG bump tail marker.
pub fn lg_bump_magic() -> (r: &'static [u8])
    ensures
        r@ == spec_lg_bump_magic(),
{
    let a: &'static [u8; 16] = &[0x41u8, 0xa9, 0xe4, 0x67, 0x74, 0x4d, 0x1d, 0x1b, 0xa4, 0x29, 0xf2, 0xec, 0xea, 0x65, 0x52, 0x79];
    let r: &'static [u8] = a.as_slice();
    assert(r@ =~= spec_lg_bump_magic());
    r
}

/// Magic of an ARM zImage.
pub open spec fn spec_zimage_magic() -> Seq<u8> {
    seq![0x01u8, 0x6f, 0x28, 0x18]
}

/// Magic of an ARM zImage.
pub fn zimage_magic() -> (r: &'static [u8])
    ensures
        r@ == spec_zimage_magic(),
{
    let a: &'static [u8; 4] = &[0x01u8, 0x6f, 0x28, 0x18];
    let r: &'static [u8] = a.as_slice();
    assert(r@ =~= spec_zimage_magic());
    r
}

/// Magic of a flattened device tree.
pub open spec fn spec_dtb_magic() -> Seq<u8> {
    seq![0xd0u8, 0x0d, 0xfe, 0xed]
}

/// Magic of a flattened device tree.
pub fn dtb_magic() -> (r: &'static [u8])
    ensures
        r@ == spec_dtb_magic(),
{
    let a: &'static [u8; 4] = &[0xd0u8, 0x0d, 0xfe, 0xed];
    let r: &'static [u8] = a.as_slice();
    assert(r@ =~= spec_dtb_magic());
    r
}

/// Magic of a gzip stream.
pub open spec fn spec_gzip1_magic() -> Seq<u8> {
    seq![0x1fu8, 0x8b]
}

/// Magic of a gzip stream.
pub fn gzip1_magic() -> (r: &'static [u8])
    ensures
        r@ == spec_gzip1_magic(),
{
    let a: &'static [u8; 2] = &[0x1fu8, 0x8b];
    let r: &'static [u8] = a.as_slice();
    assert(r@ =~= spec_gzip1_magic());
    r
}

/// Magic of an old gzip stream.
pub open spec fn spec_gzip2_magic() -> Seq<u8> {
    seq![0x1fu8, 0x9e]
}

/// Magic of an old gzip stream.
pub fn gzip2_magic() -> (r: &'static [u8])
    ensures
        r@ == spec_gzip2_magic(),
{
    let a: &'static [u8; 2] = &[0x1fu8, 0x9e];
    let r: &'static [u8] = a.as_slice();
    assert(r@ =~= spec_gzip2_magic());
    r
}

/// Magic of an lzop stream.
pub open spec fn spec_lzop_magic() -> Seq<u8> {
    seq![0x89u8, 0x4c, 0x5a, 0x4f]
}

/// Magic of an lzop stream.
pub fn lzop_magic() -> (r: &'static [u8])
    ensures
        r@ == spec_lzop_magic(),
{
    let a: &'static [u8; 4] = &[0x89u8, 0x4c, 0x5a, 0x4f];
    let r: &'static [u8] = a.as_slice();
    assert(r@ =~= spec_lzop_magic());
    r
}

/// Magic of an xz stream.
pub open spec fn spec_xz_magic() -> Seq<u8> {
    seq![0xfdu8, 0x37, 0x7a, 0x58, 0x5a]
}

/// Magic of an xz stream.
pub fn xz_magic() -> (r: &'static [u8])
    ensures
        r@ == spec_xz_magic(),
{
    let a: &'static [u8; 5] = &[0xfdu8, 0x37, 0x7a, 0x58, 0x5a];
    let r: &'static [u8] = a.as_slice();
    assert(r@ =~= spec_xz_magic());
    r
}

/// Magic of a bzip2 stream.
pub open spec fn spec_bzip_magic() -> Seq<u8> {
    seq![0x42u8, 0x5a, 0x68]
}

/// Magic of a bzip2 stream.
pub fn bzip_magic() -> (r: &'static [u8])
    ensures
        r@ == spec_bzip_magic(),
{
    let a: &'static [u8; 3] = &[0x42u8, 0x5a, 0x68];
    let r: &'static [u8] = a.as_slice();
    assert(r@ =~= spec_bzip_magic());
    r
}

/// Magic of an lz4 frame (old).
pub open spec fn spec_lz41_magic() -> Seq<u8> {
    seq![0x03u8, 0x21, 0x4c, 0x18]
}

/// Magic of an lz4 frame (old).
pub fn lz41_magic() -> (r: &'static [u8])
    ensures
        r@ == spec_lz41_magic(),
{
    let a: &'static [u8; 4] = &[0x03u8, 0x21, 0x4c, 0x18];
    let r: &'static [u8] = a.as_slice();
    assert(r@ =~= spec_lz41_magic());
    r
}

/// Magic of an lz4 frame.
pub open spec fn spec_lz42_magic() -> Seq<u8> {
    seq![0x04u8, 0x22, 0x4d, 0x18]
}

/// Magic of an lz4 frame.
pub fn lz42_magic() -> (r: &'static [u8])
    ensures
        r@ == spec_lz42_magic(),
{
    let a: &'static [u8; 4] = &[0x04u8, 0x22, 0x4d, 0x18];
    let r: &'static [u8] = a.as_slice();
    assert(r@ =~= spec_lz42_magic());
    r
}

/// Magic of a legacy lz4 stream.
pub open spec fn spec_lz4_leg_magic() -> Seq<u8> {
    seq![0x02u8, 0x21, 0x4c, 0x18]
}

/// Magic of a legacy lz4 stream.
pub fn lz4_leg_magic() -> (r: &'static [u8])
    ensures
        r@ == spec_lz4_leg_magic(),
{
    let a: &'static [u8; 4] = &[0x02u8, 0x21, 0x4c, 0x18];
    let r: &'static [u8] = a.as_slice();
    assert(r@ =~= spec_lz4_leg_magic());
    r
}

/// Magic of an amonet microloader.
pub open spec fn spec_amonet_microloader_magic() -> Seq<u8> {
    seq![0xd1u8, 0xdc, 0x4b, 0x84, 0x34, 0x10, 0xd7, 0x73]
}

/// Magic of an amonet microloader.
pub fn amonet_microloader_magic() -> (r: &'static [u8])
    ensures
        r@ == spec_amonet_microloader_magic(),
{
    let a: &'static [u8; 8] = &[0xd1u8, 0xdc, 0x4b, 0x84, 0x34, 0x10, 0xd7, 0x73];
    let r: &'static [u8] = a.as_slice();
    assert(r@ =~= spec_amonet_microloader_magic());
    r
}

/// NookHD pre-header marker.
pub open spec fn spec_nookhd_rl_magic() -> Seq<u8> {
    seq![0x52u8, 0x65, 0x64, 0x20, 0x4c, 0x6f, 0x61, 0x64, 0x65, 0x72]
}

/// NookHD pre-header marker.
pub fn nookhd_rl_magic() -> (r: &'static [u8])
    ensures
        r@ == spec_nookhd_rl_magic(),
{
    let a: &'static [u8; 10] = &[0x52u8, 0x65, 0x64, 0x20, 0x4c, 0x6f, 0x61, 0x64, 0x65, 0x72];
    let r: &'static [u8] = a.as_slice();
    assert(r@ =~= spec_nookhd_rl_magic());
    r
}

/// NookHD pre-header marker.
pub open spec fn spec_nookhd_gl_magic() -> Seq<u8> {
    seq![0x47u8, 0x72, 0x65, 0x65, 0x6e, 0x20, 0x4c, 0x6f, 0x61, 0x64, 0x65, 0x72]
}

/// NookHD pre-header marker.
pub fn nookhd_gl_magic() -> (r: &'static [u8])
    ensures
        r@ == spec_nookhd_gl_magic(),
{
    let a: &'static [u8; 12] = &[0x47u8, 0x72, 0x65, 0x65, 0x6e, 0x20, 0x4c, 0x6f, 0x61, 0x64, 0x65, 0x72];
    let r: &'static [u8] = a.as_slice();
    assert(r@ =~= spec_nookhd_gl_magic());
    r
}

/// NookHD pre-header marker.
pub open spec fn spec_nookhd_gr_magic() -> Seq<u8> {
    seq![0x47u8, 0x72, 0x65, 0x65, 0x6e, 0x20, 0x52, 0x65, 0x63, 0x6f, 0x76, 0x65, 0x72, 0x79]
}

/// NookHD pre-header marker.
pub fn nookhd_gr_magic() -> (r: &'static [u8])
    ensures
        r@ == spec_nookhd_gr_magic(),
{
    let a: &'static [u8; 14] = &[0x47u8, 0x72, 0x65, 0x65, 0x6e, 0x20, 0x52, 0x65, 0x63, 0x6f, 0x76, 0x65, 0x72, 0x79];
    let r: &'static [u8] = a.as_slice();
    assert(r@ =~= spec_nookhd_gr_magic());
    r
}

/// NookHD pre-header marker.
pub open spec fn spec_nookhd_eb_magic() -> Seq<u8> {
    seq![0x65u8, 0x4d, 0x4d, 0x43, 0x20, 0x42, 0x6f, 0x6f, 0x74, 0x6c, 0x6f, 0x61, 0x64, 0x65, 0x72]
}

/// NookHD pre-header marker.
pub fn nookhd_eb_magic() -> (r: &'static [u8])
    ensures
        r@ == spec_nookhd_eb_magic(),
{
    let a: &'static [u8; 15] = &[0x65u8, 0x4d, 0x4d, 0x43, 0x20, 0x42, 0x6f, 0x6f, 0x74, 0x6c, 0x6f, 0x61, 0x64, 0x65, 0x72];
    let r: &'static [u8] = a.as_slice();
    assert(r@ =~= spec_nookhd_eb_magic());
    r
}

/// NookHD pre-header marker.
pub open spec fn spec_nookhd_er_magic() -> Seq<u8> {
    seq![0x65u8, 0x4d, 0x4d, 0x43, 0x20, 0x52, 0x65, 0x63, 0x6f, 0x76, 0x65, 0x72, 0x79]
}

/// NookHD pre-header marker.
pub fn nookhd_er_magic() -> (r: &'static [u8])
    ensures
        r@ == spec_nookhd_er_magic(),
{
    let a: &'static [u8; 13] = &[0x65u8, 0x4d, 0x4d, 0x43, 0x20, 0x52, 0x65, 0x63, 0x6f, 0x76, 0x65, 0x72, 0x79];
    let r: &'static [u8] = a.as_slice();
    assert(r@ =~= spec_nookhd_er_magic());
    r
}

/// Acclaim pre-header marker.
pub open spec fn spec_acclaim_magic() -> Seq<u8> {
    seq![0x42u8, 0x61, 0x75, 0x77, 0x6b, 0x73, 0x42, 0x6f, 0x6f, 0x74]
}

/// Acclaim pre-header marker.
pub fn acclaim_magic() -> (r: &'static [u8])
    ensures
        r@ == spec_acclaim_magic(),
{
    let a: &'static [u8; 10] = &[0x42u8, 0x61, 0x75, 0x77, 0x6b, 0x73, 0x42, 0x6f, 0x6f, 0x74];
    let r: &'static [u8] = a.as_slice();
    assert(r@ =~= spec_acclaim_magic());
    r
}

/// Magic of a boot signature block.
pub open spec fn spec_boot_signature_magic() -> Seq<u8> {
    seq![0x42u8, 0x72, 0x73, 0x67, 0x6e]
}

/// Magic of a boot signature block.
pub fn boot_signature_magic() -> (r: &'static [u8])
    ensures
        r@ == spec_boot_signature_magic(),
{
    let a: &'static [u8; 5] = &[0x42u8, 0x72, 0x73, 0x67, 0x6e];
    let r: &'static [u8] = a.as_slice();
    assert(r@ =~= spec_boot_signature_magic());
    r
}

/// Magic of a newc cpio header.
pub open spec fn spec_cpio_magic() -> Seq<u8> {
    seq![0x30u8, 0x37, 0x30, 0x37, 0x30, 0x31]
}

/// Magic of a newc cpio header.
pub fn cpio_magic() -> (r: &'static [u8])
    ensures
        r@ == spec_cpio_magic(),
{
    let a: &'static [u8; 6] = &[0x30u8, 0x37, 0x30, 0x37, 0x30, 0x31];
    let r: &'static [u8] = a.as_slice();
    assert(r@ =~= spec_cpio_magic());
    r
}

/// Name of the cpio trailer entry.
pub open spec fn spec_cpio_trailer() -> Seq<u8> {
    seq![0x54u8, 0x52, 0x41, 0x49, 0x4c, 0x45, 0x52, 0x21, 0x21, 0x21]
}

/// Name of the cpio trailer entry.
pub fn cpio_trailer() -> (r: &'static [u8])
    ensures
        r@ == spec_cpio_trailer(),
{
    let a: &'static [u8; 10] = &[0x54u8, 0x52, 0x41, 0x49, 0x4c, 0x45, 0x52, 0x21, 0x21, 0x21];
    let r: &'static [u8] = a.as_slice();
    assert(r@ =~= spec_cpio_trailer());
    r
}

} // verus!
