//! Parsing of Android boot and vendor boot images.
use vstd::prelude::*;
use crate::bytes::{
    bytes_match_at, read_be32, spec_be32, read_be64, read_le32, read_le64, spec_be64, spec_le32, spec_le32_bytes,
    spec_le64, spec_starts_with_at, le32_bytes, slice_to_vec, splice_into, spec_splice,
    lemma_le32_roundtrip,
};
use crate::constants::{
    AVB_FOOTER_SIZE,
    boot_magic, dtb_magic, mtk_magic, spec_mtk_magic, chromeos_magic, spec_chromeos_magic,
    dhtb_magic, spec_dhtb_magic, blob_magic, spec_blob_magic, nookhd_rl_magic, nookhd_gl_magic,
    nookhd_gr_magic, nookhd_eb_magic, nookhd_er_magic, spec_nookhd_rl_magic,
    spec_nookhd_gl_magic, spec_nookhd_gr_magic, spec_nookhd_eb_magic, spec_nookhd_er_magic,
    acclaim_magic, spec_acclaim_magic, amonet_microloader_magic, spec_amonet_microloader_magic,
    avb_footer_magic, spec_avb_footer_magic, avb_magic, spec_avb_magic, seandroid_magic,
    spec_seandroid_magic, lg_bump_magic, spec_lg_bump_magic, spec_dtb_magic, spec_boot_magic, spec_vendor_boot_magic, vendor_boot_magic,
    VENDOR_RAMDISK_TYPE_DLKM, VENDOR_RAMDISK_TYPE_NONE, VENDOR_RAMDISK_TYPE_PLATFORM,
    VENDOR_RAMDISK_TYPE_RECOVERY,
};
use crate::layouts::{layout_of, layout_wf, spec_layout, BootHeaderLayout, LayoutKind};
use crate::utils::{align_to, spec_align_to, spec_trim_end_len, trim_end};
use crate::compress::{parse_compress_format, spec_parse_compress_format, CompressFormat};

verus! {

/// Why a boot image could not be parsed.
#[derive(Debug, Clone, Copy, PartialEq, Eq, Structural)]
pub enum ParseError {
    /// Fewer bytes than a header magic and version need.
    TooSmall,
    /// The data ends inside the header.
    TruncatedHeader,
    /// Neither a boot nor a vendor boot magic.
    BadMagic,
    /// No header was found.
    NoHeader,
    /// A block reaches past the end of the image.
    BlockOutOfBounds,
    /// The vendor ramdisk table entries do not have the expected size.
    BadVendorTableEntrySize,
    /// The vendor ramdisk table is shorter than its entries.
    TruncatedVendorTable,
    /// A vendor ramdisk lies outside the ramdisk block.
    VendorEntryOutOfBounds,
    /// Offsets or sizes that point outside the image, or a zero page size.
    Malformed,
}

/// The kind and version of a header.
#[derive(Debug, Clone, Copy, PartialEq, Eq, Structural)]
pub enum BootImageVersion {
    Android(u32),
    Vendor(u32),
}

/// An Android version `a.b.c`.
pub struct OsVersion {
    pub a: u32,
    pub b: u32,
    pub c: u32,
}

/// A security patch level `year-month`.
pub struct PatchLevel {
    pub year: u32,
    pub month: u32,
}

/// The type of a vendor ramdisk.
#[derive(Debug, Clone, Copy, PartialEq, Eq, Structural)]
pub enum VendorRamdiskType {
    NoType,
    Platform,
    Recovery,
    Dlkm,
    Unknown(u32),
}

/// The numeric value of a vendor ramdisk type.
pub open spec fn spec_ramdisk_type_u32(t: VendorRamdiskType) -> u32 {
    match t {
        VendorRamdiskType::NoType => 0,
        VendorRamdiskType::Platform => 1,
        VendorRamdiskType::Recovery => 2,
        VendorRamdiskType::Dlkm => 3,
        VendorRamdiskType::Unknown(v) => v,
    }
}

/// The vendor ramdisk type that a numeric value stands for.
pub open spec fn spec_ramdisk_type_of(raw: u32) -> VendorRamdiskType {
    if raw == 0 {
        VendorRamdiskType::NoType
    } else if raw == 1 {
        VendorRamdiskType::Platform
    } else if raw == 2 {
        VendorRamdiskType::Recovery
    } else if raw == 3 {
        VendorRamdiskType::Dlkm
    } else {
        VendorRamdiskType::Unknown(raw)
    }
}

impl VendorRamdiskType {
    /// The numeric value of the type.
    pub fn to_u32(&self) -> (r: u32)
        ensures
            r == spec_ramdisk_type_u32(*self),
    {
        match self {
            VendorRamdiskType::NoType => 0,
            VendorRamdiskType::Platform => 1,
            VendorRamdiskType::Recovery => 2,
            VendorRamdiskType::Dlkm => 3,
            VendorRamdiskType::Unknown(v) => *v,
        }
    }
}

/// Offsets inside a vendor ramdisk table entry.
pub const VRT_OFFSET_RAMDISK_SIZE: usize = 0;
pub const VRT_OFFSET_RAMDISK_OFFSET: usize = 4;
pub const VRT_OFFSET_RAMDISK_TYPE: usize = 8;
pub const VRT_OFFSET_RAMDISK_NAME: usize = 12;
pub const VRT_SIZE_RAMDISK_NAME: usize = 32;
pub const VRT_OFFSET_BOARD_ID: usize = 44;
pub const VRT_SIZE_BOARD_ID: usize = 64;
/// The size of a vendor ramdisk table entry.
pub const VRT_ENTRY_SIZE: usize = 108;

/// One entry of a vendor ramdisk table, as its raw bytes.
#[derive(Clone, Copy)]
pub struct VendorRamdiskTableEntry<'a> {
    pub data: &'a [u8],
}

impl<'a> VendorRamdiskTableEntry<'a> {
    /// The size of the ramdisk the entry describes.
    pub fn get_ramdisk_size(&self) -> (r: u32)
        requires
            self.data@.len() >= VRT_ENTRY_SIZE,
        ensures
            r == spec_le32(self.data@, VRT_OFFSET_RAMDISK_SIZE as int),
    {
        read_le32(self.data, VRT_OFFSET_RAMDISK_SIZE)
    }

    /// The offset of the ramdisk inside the ramdisk block.
    pub fn get_ramdisk_offset(&self) -> (r: u32)
        requires
            self.data@.len() >= VRT_ENTRY_SIZE,
        ensures
            r == spec_le32(self.data@, VRT_OFFSET_RAMDISK_OFFSET as int),
    {
        read_le32(self.data, VRT_OFFSET_RAMDISK_OFFSET)
    }

    /// The type of the ramdisk.
    pub fn get_ramdisk_type(&self) -> (r: VendorRamdiskType)
        requires
            self.data@.len() >= VRT_ENTRY_SIZE,
        ensures
            r == spec_ramdisk_type_of(spec_le32(self.data@, VRT_OFFSET_RAMDISK_TYPE as int)),
    {
        let raw = read_le32(self.data, VRT_OFFSET_RAMDISK_TYPE);
        if raw == VENDOR_RAMDISK_TYPE_NONE {
            VendorRamdiskType::NoType
        } else if raw == VENDOR_RAMDISK_TYPE_PLATFORM {
            VendorRamdiskType::Platform
        } else if raw == VENDOR_RAMDISK_TYPE_RECOVERY {
            VendorRamdiskType::Recovery
        } else if raw == VENDOR_RAMDISK_TYPE_DLKM {
            VendorRamdiskType::Dlkm
        } else {
            VendorRamdiskType::Unknown(raw)
        }
    }

    /// The raw name field.
    pub fn get_ramdisk_name(&self) -> (r: &[u8])
        requires
            self.data@.len() >= VRT_ENTRY_SIZE,
        ensures
            r@ == self.data@.subrange(
                VRT_OFFSET_RAMDISK_NAME as int,
                VRT_OFFSET_RAMDISK_NAME + VRT_SIZE_RAMDISK_NAME,
            ),
    {
        &self.data[VRT_OFFSET_RAMDISK_NAME..VRT_OFFSET_RAMDISK_NAME + VRT_SIZE_RAMDISK_NAME]
    }

    /// The raw board id field.
    pub fn get_board_id(&self) -> (r: &[u8])
        requires
            self.data@.len() >= VRT_ENTRY_SIZE,
        ensures
            r@ == self.data@.subrange(
                VRT_OFFSET_BOARD_ID as int,
                VRT_OFFSET_BOARD_ID + VRT_SIZE_BOARD_ID,
            ),
    {
        &self.data[VRT_OFFSET_BOARD_ID..VRT_OFFSET_BOARD_ID + VRT_SIZE_BOARD_ID]
    }

    /// A copy of the entry with its size and offset fields replaced.
    pub fn patch(&self, ramdisk_size: u32, ramdisk_offset: u32) -> (r: Vec<u8>)
        requires
            self.data@.len() >= VRT_ENTRY_SIZE,
        ensures
            r@ == spec_splice(
                spec_splice(self.data@, VRT_OFFSET_RAMDISK_SIZE as int, spec_le32_bytes(ramdisk_size)),
                VRT_OFFSET_RAMDISK_OFFSET as int,
                spec_le32_bytes(ramdisk_offset),
            ),
    {
        let mut v = slice_to_vec(self.data);
        let sb = le32_bytes(ramdisk_size);
        splice_into(&mut v, VRT_OFFSET_RAMDISK_SIZE, sb.as_slice());
        let ob = le32_bytes(ramdisk_offset);
        splice_into(&mut v, VRT_OFFSET_RAMDISK_OFFSET, ob.as_slice());
        v
    }
}

/// Patching an entry and reading it back gives the new size and offset, and
/// leaves the type, name and board id as they were.
pub proof fn lemma_vendor_entry_patch_read_back(entry: Seq<u8>, size: u32, offset: u32)
    requires
        entry.len() >= VRT_ENTRY_SIZE,
    ensures
        ({
            let p = spec_splice(
                spec_splice(entry, VRT_OFFSET_RAMDISK_SIZE as int, spec_le32_bytes(size)),
                VRT_OFFSET_RAMDISK_OFFSET as int,
                spec_le32_bytes(offset),
            );
            &&& p.len() == entry.len()
            &&& spec_le32(p, VRT_OFFSET_RAMDISK_SIZE as int) == size
            &&& spec_le32(p, VRT_OFFSET_RAMDISK_OFFSET as int) == offset
            &&& p.subrange(8, entry.len() as int) == entry.subrange(8, entry.len() as int)
        }),
{
    lemma_le32_roundtrip(size);
    lemma_le32_roundtrip(offset);
    let p1 = spec_splice(entry, 0, spec_le32_bytes(size));
    let p = spec_splice(p1, 4, spec_le32_bytes(offset));
    assert(p.subrange(0, 4) =~= spec_le32_bytes(size));
    assert(p.subrange(4, 8) =~= spec_le32_bytes(offset));
    assert(p.subrange(8, entry.len() as int) =~= entry.subrange(8, entry.len() as int));
    assert(spec_le32(p, 0) == spec_le32(spec_le32_bytes(size), 0));
    assert(spec_le32(p, 4) == spec_le32(spec_le32_bytes(offset), 0));
}

/// A boot or vendor boot image header.
pub struct BootHeader<'a> {
    pub(crate) data: &'a [u8],
    pub(crate) layout: BootHeaderLayout,
    pub(crate) version: BootImageVersion,
}

/// How a header's kind and version follow from the bytes it starts.
pub open spec fn spec_header_kind(data: Seq<u8>) -> Result<(LayoutKind, BootImageVersion), ParseError> {
    if data.len() < 12 {
        Err(ParseError::TooSmall)
    } else if spec_starts_with_at(data, 0, spec_boot_magic()) {
        let ver: u32 = if data.len() >= 0x2c { spec_le32(data, 0x28) } else { 0 };
        let kind = if ver == 1 {
            LayoutKind::BootV1
        } else if ver == 2 {
            LayoutKind::BootV2
        } else if ver == 3 {
            LayoutKind::BootV3
        } else if ver == 4 {
            LayoutKind::BootV4
        } else {
            LayoutKind::BootV0
        };
        Ok((kind, BootImageVersion::Android(ver)))
    } else if spec_starts_with_at(data, 0, spec_vendor_boot_magic()) {
        let ver: u32 = spec_le32(data, 8);
        let kind = if ver == 4 { LayoutKind::VendorV4 } else { LayoutKind::VendorV3 };
        Ok((kind, BootImageVersion::Vendor(ver)))
    } else {
        Err(ParseError::BadMagic)
    }
}

/// The outcome of parsing a header from `data`: its layout and version.
pub open spec fn spec_header_parse(data: Seq<u8>) -> Result<(BootHeaderLayout, BootImageVersion), ParseError> {
    match spec_header_kind(data) {
        Err(e) => Err(e),
        Ok((kind, ver)) => if data.len() < spec_layout(kind).total_size {
            Err(ParseError::TruncatedHeader)
        } else {
            Ok((spec_layout(kind), ver))
        },
    }
}

/// The page size of a header with layout `l`, version `v` and bytes `data`.
pub open spec fn spec_page_size_val(data: Seq<u8>, l: BootHeaderLayout, v: BootImageVersion) -> u32 {
    match v {
        BootImageVersion::Android(n) => if n >= 3 { 4096 } else { spec_le32(data, l.offset_page_size as int) },
        _ => spec_le32(data, l.offset_page_size as int),
    }
}

impl<'a> BootHeader<'a> {
    #[verifier::type_invariant]
    spec fn inv(&self) -> bool {
        &&& layout_wf(self.layout)
        &&& self.data@.len() == self.layout.total_size
    }

    /// The bytes of the header.
    pub closed spec fn spec_data(&self) -> Seq<u8> {
        self.data@
    }

    /// The layout of the header.
    pub closed spec fn spec_layout(&self) -> BootHeaderLayout {
        self.layout
    }

    /// The version of the header.
    pub closed spec fn spec_version(&self) -> BootImageVersion {
        self.version
    }

    /// The page size that the blocks are aligned to.
    pub closed spec fn spec_page_size(&self) -> u32 {
        spec_page_size_val(self.data@, self.layout, self.version)
    }

    /// The space the header takes before the first block.
    pub closed spec fn spec_hdr_space(&self) -> int {
        spec_align_to(self.layout.total_size as int, self.spec_page_size() as int)
    }

    /// The header space is the header rounded up to a whole page.
    pub proof fn lemma_hdr_space(&self)
        requires
            self.spec_page_size() > 0,
        ensures
            self.spec_layout().total_size <= self.spec_hdr_space() < self.spec_layout().total_size
                + self.spec_page_size(),
            self.spec_hdr_space() % (self.spec_page_size() as int) == 0,
    {
        crate::utils::lemma_align_to(self.layout.total_size as int, self.spec_page_size() as int);
    }

    /// Whether the header format has the kernel size field.
    pub fn has_kernel_size(&self) -> (r: bool)
        ensures
            r == (self.spec_layout().offset_kernel_size != 0),
    {
        self.layout.offset_kernel_size != 0
    }

    /// The kernel size field (read at offset zero where the format has no such field).
    pub fn get_kernel_size(&self) -> (r: u32)
        ensures
            r == spec_le32(self.spec_data(), self.spec_layout().offset_kernel_size as int),
    {
        proof {
            use_type_invariant(self);
        }
        read_le32(self.data, self.layout.offset_kernel_size as usize)
    }

    /// Whether the header format has the ramdisk size field.
    pub fn has_ramdisk_size(&self) -> (r: bool)
        ensures
            r == (self.spec_layout().offset_ramdisk_size != 0),
    {
        self.layout.offset_ramdisk_size != 0
    }

    /// The ramdisk size field (read at offset zero where the format has no such field).
    pub fn get_ramdisk_size(&self) -> (r: u32)
        ensures
            r == spec_le32(self.spec_data(), self.spec_layout().offset_ramdisk_size as int),
    {
        proof {
            use_type_invariant(self);
        }
        read_le32(self.data, self.layout.offset_ramdisk_size as usize)
    }

    /// Whether the header format has the second size field.
    pub fn has_second_size(&self) -> (r: bool)
        ensures
            r == (self.spec_layout().offset_second_size != 0),
    {
        self.layout.offset_second_size != 0
    }

    /// The second size field (read at offset zero where the format has no such field).
    pub fn get_second_size(&self) -> (r: u32)
        ensures
            r == spec_le32(self.spec_data(), self.spec_layout().offset_second_size as int),
    {
        proof {
            use_type_invariant(self);
        }
        read_le32(self.data, self.layout.offset_second_size as usize)
    }

    /// Whether the header format has the page size field.
    pub fn has_page_size(&self) -> (r: bool)
        ensures
            r == (self.spec_layout().offset_page_size != 0),
    {
        self.layout.offset_page_size != 0
    }

    /// The page size field (read at offset zero where the format has no such field).
    pub fn get_page_size(&self) -> (r: u32)
        ensures
            r == spec_le32(self.spec_data(), self.spec_layout().offset_page_size as int),
    {
        proof {
            use_type_invariant(self);
        }
        read_le32(self.data, self.layout.offset_page_size as usize)
    }

    /// Whether the header format has the header version field.
    pub fn has_header_version(&self) -> (r: bool)
        ensures
            r == (self.spec_layout().offset_header_version != 0),
    {
        self.layout.offset_header_version != 0
    }

    /// The header version field (read at offset zero where the format has no such field).
    pub fn get_header_version(&self) -> (r: u32)
        ensures
            r == spec_le32(self.spec_data(), self.spec_layout().offset_header_version as int),
    {
        proof {
            use_type_invariant(self);
        }
        read_le32(self.data, self.layout.offset_header_version as usize)
    }

    /// Whether the header format has the os version field.
    pub fn has_os_version_raw(&self) -> (r: bool)
        ensures
            r == (self.spec_layout().offset_os_version != 0),
    {
        self.layout.offset_os_version != 0
    }

    /// The os version field (read at offset zero where the format has no such field).
    pub fn get_os_version_raw(&self) -> (r: u32)
        ensures
            r == spec_le32(self.spec_data(), self.spec_layout().offset_os_version as int),
    {
        proof {
            use_type_invariant(self);
        }
        read_le32(self.data, self.layout.offset_os_version as usize)
    }

    /// Whether the header format has the extra size field.
    pub fn has_extra_size(&self) -> (r: bool)
        ensures
            r == (self.spec_layout().offset_extra_size != 0),
    {
        self.layout.offset_extra_size != 0
    }

    /// The extra size field (read at offset zero where the format has no such field).
    pub fn get_extra_size(&self) -> (r: u32)
        ensures
            r == spec_le32(self.spec_data(), self.spec_layout().offset_extra_size as int),
    {
        proof {
            use_type_invariant(self);
        }
        read_le32(self.data, self.layout.offset_extra_size as usize)
    }

    /// Whether the header format has the recovery dtbo size field.
    pub fn has_recovery_dtbo_size(&self) -> (r: bool)
        ensures
            r == (self.spec_layout().offset_recovery_dtbo_size != 0),
    {
        self.layout.offset_recovery_dtbo_size != 0
    }

    /// The recovery dtbo size field (read at offset zero where the format has no such field).
    pub fn get_recovery_dtbo_size(&self) -> (r: u32)
        ensures
            r == spec_le32(self.spec_data(), self.spec_layout().offset_recovery_dtbo_size as int),
    {
        proof {
            use_type_invariant(self);
        }
        read_le32(self.data, self.layout.offset_recovery_dtbo_size as usize)
    }

    /// Whether the header format has the recovery dtbo offset field.
    pub fn has_recovery_dtbo_offset(&self) -> (r: bool)
        ensures
            r == (self.spec_layout().offset_recovery_dtbo_offset != 0),
    {
        self.layout.offset_recovery_dtbo_offset != 0
    }

    /// The recovery dtbo offset field (read at offset zero where the format has no such field).
    pub fn get_recovery_dtbo_offset(&self) -> (r: u64)
        ensures
            r == spec_le64(self.spec_data(), self.spec_layout().offset_recovery_dtbo_offset as int),
    {
        proof {
            use_type_invariant(self);
        }
        read_le64(self.data, self.layout.offset_recovery_dtbo_offset as usize)
    }

    /// Whether the header format has the header size field.
    pub fn has_header_size(&self) -> (r: bool)
        ensures
            r == (self.spec_layout().offset_header_size != 0),
    {
        self.layout.offset_header_size != 0
    }

    /// The header size field (read at offset zero where the format has no such field).
    pub fn get_header_size(&self) -> (r: u32)
        ensures
            r == spec_le32(self.spec_data(), self.spec_layout().offset_header_size as int),
    {
        proof {
            use_type_invariant(self);
        }
        read_le32(self.data, self.layout.offset_header_size as usize)
    }

    /// Whether the header format has the dtb size field.
    pub fn has_dtb_size(&self) -> (r: bool)
        ensures
            r == (self.spec_layout().offset_dtb_size != 0),
    {
        self.layout.offset_dtb_size != 0
    }

    /// The dtb size field (read at offset zero where the format has no such field).
    pub fn get_dtb_size(&self) -> (r: u32)
        ensures
            r == spec_le32(self.spec_data(), self.spec_layout().offset_dtb_size as int),
    {
        proof {
            use_type_invariant(self);
        }
        read_le32(self.data, self.layout.offset_dtb_size as usize)
    }

    /// Whether the header format has the signature size field.
    pub fn has_signature_size(&self) -> (r: bool)
        ensures
            r == (self.spec_layout().offset_signature_size != 0),
    {
        self.layout.offset_signature_size != 0
    }

    /// The signature size field (read at offset zero where the format has no such field).
    pub fn get_signature_size(&self) -> (r: u32)
        ensures
            r == spec_le32(self.spec_data(), self.spec_layout().offset_signature_size as int),
    {
        proof {
            use_type_invariant(self);
        }
        read_le32(self.data, self.layout.offset_signature_size as usize)
    }

    /// Whether the header format has the vendor ramdisk table size field.
    pub fn has_vendor_ramdisk_table_size(&self) -> (r: bool)
        ensures
            r == (self.spec_layout().offset_vendor_ramdisk_table_size != 0),
    {
        self.layout.offset_vendor_ramdisk_table_size != 0
    }

    /// The vendor ramdisk table size field (read at offset zero where the format has no such field).
    pub fn get_vendor_ramdisk_table_size(&self) -> (r: u32)
        ensures
            r == spec_le32(self.spec_data(), self.spec_layout().offset_vendor_ramdisk_table_size as int),
    {
        proof {
            use_type_invariant(self);
        }
        read_le32(self.data, self.layout.offset_vendor_ramdisk_table_size as usize)
    }

    /// Whether the header format has the vendor ramdisk table entry num field.
    pub fn has_vendor_ramdisk_table_entry_num(&self) -> (r: bool)
        ensures
            r == (self.spec_layout().offset_vendor_ramdisk_table_entry_num != 0),
    {
        self.layout.offset_vendor_ramdisk_table_entry_num != 0
    }

    /// The vendor ramdisk table entry num field (read at offset zero where the format has no such field).
    pub fn get_vendor_ramdisk_table_entry_num(&self) -> (r: u32)
        ensures
            r == spec_le32(self.spec_data(), self.spec_layout().offset_vendor_ramdisk_table_entry_num as int),
    {
        proof {
            use_type_invariant(self);
        }
        read_le32(self.data, self.layout.offset_vendor_ramdisk_table_entry_num as usize)
    }

    /// Whether the header format has the vendor ramdisk table entry size field.
    pub fn has_vendor_ramdisk_table_entry_size(&self) -> (r: bool)
        ensures
            r == (self.spec_layout().offset_vendor_ramdisk_table_entry_size != 0),
    {
        self.layout.offset_vendor_ramdisk_table_entry_size != 0
    }

    /// The vendor ramdisk table entry size field (read at offset zero where the format has no such field).
    pub fn get_vendor_ramdisk_table_entry_size(&self) -> (r: u32)
        ensures
            r == spec_le32(self.spec_data(), self.spec_layout().offset_vendor_ramdisk_table_entry_size as int),
    {
        proof {
            use_type_invariant(self);
        }
        read_le32(self.data, self.layout.offset_vendor_ramdisk_table_entry_size as usize)
    }

    /// Whether the header format has the bootconfig size field.
    pub fn has_bootconfig_size(&self) -> (r: bool)
        ensures
            r == (self.spec_layout().offset_bootconfig_size != 0),
    {
        self.layout.offset_bootconfig_size != 0
    }

    /// The bootconfig size field (read at offset zero where the format has no such field).
    pub fn get_bootconfig_size(&self) -> (r: u32)
        ensures
            r == spec_le32(self.spec_data(), self.spec_layout().offset_bootconfig_size as int),
    {
        proof {
            use_type_invariant(self);
        }
        read_le32(self.data, self.layout.offset_bootconfig_size as usize)
    }

    /// Whether the header format has the name field.
    pub fn has_name(&self) -> (r: bool)
        ensures
            r == (self.spec_layout().offset_name != 0),
    {
        self.layout.offset_name != 0
    }

    /// The bytes of the name field.
    pub fn get_name(&self) -> (r: &[u8])
        ensures
            r@ == self.spec_data().subrange(
                self.spec_layout().offset_name as int,
                self.spec_layout().offset_name + self.spec_layout().size_name,
            ),
    {
        proof {
            use_type_invariant(self);
        }
        let off = self.layout.offset_name as usize;
        let sz = self.layout.size_name as usize;
        &self.data[off..off + sz]
    }

    /// Whether the header format has the cmdline field.
    pub fn has_cmdline(&self) -> (r: bool)
        ensures
            r == (self.spec_layout().offset_cmdline != 0),
    {
        self.layout.offset_cmdline != 0
    }

    /// The bytes of the cmdline field.
    pub fn get_cmdline(&self) -> (r: &[u8])
        ensures
            r@ == self.spec_data().subrange(
                self.spec_layout().offset_cmdline as int,
                self.spec_layout().offset_cmdline + self.spec_layout().size_cmdline,
            ),
    {
        proof {
            use_type_invariant(self);
        }
        let off = self.layout.offset_cmdline as usize;
        let sz = self.layout.size_cmdline as usize;
        &self.data[off..off + sz]
    }

    /// Whether the header format has the id field.
    pub fn has_id(&self) -> (r: bool)
        ensures
            r == (self.spec_layout().offset_id != 0),
    {
        self.layout.offset_id != 0
    }

    /// The bytes of the id field.
    pub fn get_id(&self) -> (r: &[u8])
        ensures
            r@ == self.spec_data().subrange(
                self.spec_layout().offset_id as int,
                self.spec_layout().offset_id + self.spec_layout().size_id,
            ),
    {
        proof {
            use_type_invariant(self);
        }
        let off = self.layout.offset_id as usize;
        let sz = self.layout.size_id as usize;
        &self.data[off..off + sz]
    }

    /// Whether the header format has the extra cmdline field.
    pub fn has_extra_cmdline(&self) -> (r: bool)
        ensures
            r == (self.spec_layout().offset_extra_cmdline != 0),
    {
        self.layout.offset_extra_cmdline != 0
    }

    /// The bytes of the extra cmdline field.
    pub fn get_extra_cmdline(&self) -> (r: &[u8])
        ensures
            r@ == self.spec_data().subrange(
                self.spec_layout().offset_extra_cmdline as int,
                self.spec_layout().offset_extra_cmdline + self.spec_layout().size_extra_cmdline,
            ),
    {
        proof {
            use_type_invariant(self);
        }
        let off = self.layout.offset_extra_cmdline as usize;
        let sz = self.layout.size_extra_cmdline as usize;
        &self.data[off..off + sz]
    }
    /// The layout of the header.
    pub fn get_layout(&self) -> (r: BootHeaderLayout)
        ensures
            r == self.spec_layout(),
            layout_wf(r),
    {
        proof {
            use_type_invariant(self);
        }
        self.layout
    }

    /// The bytes of the header, as many as its layout has.
    pub fn header_bytes(&self) -> (r: &[u8])
        ensures
            r@ == self.spec_data(),
            r@.len() == self.spec_layout().total_size,
    {
        proof {
            use_type_invariant(self);
        }
        self.data
    }

    /// The version of the header.
    pub fn get_version(&self) -> (r: BootImageVersion)
        ensures
            r == self.spec_version(),
    {
        self.version
    }

    /// The OS version and patch level packed in the os_version field, unless it is zero.
    pub fn get_os_version(&self) -> (r: Option<(OsVersion, PatchLevel)>)
        ensures
            ({
                let v = spec_le32(self.spec_data(), self.spec_layout().offset_os_version as int);
                let os = v >> 11u32;
                let pl = v & 0x7ffu32;
                match r {
                    None => v == 0,
                    Some((o, p)) => v != 0 && o.a == (os >> 14u32) & 0x7f && o.b == (os >> 7u32)
                        & 0x7f && o.c == os & 0x7f && p.year == (pl >> 4u32) + 2000 && p.month
                        == pl & 0xf,
                }
            }),
    {
        let version = self.get_os_version_raw();
        if version == 0 {
            return None;
        }
        let os_ver = version >> 11u32;
        let patch_level = version & 0x7ff;
        let a = (os_ver >> 14u32) & 0x7f;
        let b = (os_ver >> 7u32) & 0x7f;
        let c = os_ver & 0x7f;
        assert(patch_level >> 4u32 <= 0x7f) by (bit_vector)
            requires
                patch_level == version & 0x7ff,
        ;
        let y = (patch_level >> 4u32) + 2000;
        let m = patch_level & 0xf;
        Some((OsVersion { a, b, c }, PatchLevel { year: y, month: m }))
    }

    /// The page size: 4096 for boot headers of version 3 and later, else the page size field.
    pub fn page_size_val(&self) -> (r: u32)
        ensures
            r == self.spec_page_size(),
    {
        match self.version {
            BootImageVersion::Android(v) => if v >= 3 {
                4096
            } else {
                self.get_page_size()
            },
            _ => self.get_page_size(),
        }
    }

    /// The header size rounded up to the page size.
    pub fn hdr_space(&self) -> (r: usize)
        requires
            self.spec_page_size() > 0,
            self.spec_layout().total_size + self.spec_page_size() <= usize::MAX,
        ensures
            r == self.spec_hdr_space(),
            self.spec_layout().total_size <= r < self.spec_layout().total_size + self.spec_page_size(),
            (r as int) % (self.spec_page_size() as int) == 0,
    {
        proof {
            use_type_invariant(self);
            crate::utils::lemma_align_to(self.layout.total_size as int, self.spec_page_size() as int);
        }
        let p = self.page_size_val() as usize;
        align_to(self.layout.total_size as usize, p)
    }

    /// Whether this is a vendor boot header.
    pub fn is_vendor(&self) -> (r: bool)
        ensures
            r == (self.spec_version() is Vendor),
    {
        match self.version {
            BootImageVersion::Vendor(_) => true,
            _ => false,
        }
    }

    /// Reads the header at the start of `data`.
    pub fn parse(data: &'a [u8]) -> (r: Result<Self, ParseError>)
        ensures
            match spec_header_parse(data@) {
                Ok((l, v)) => r matches Ok(h) && h.spec_layout() == l && h.spec_version() == v
                    && h.spec_data() == data@.subrange(0, l.total_size as int),
                Err(e) => r == Err::<Self, ParseError>(e),
            },
    {
        if data.len() < 12 {
            return Err(ParseError::TooSmall);
        }
        if bytes_match_at(data, 0, boot_magic()) {
            let ver: u32 = if data.len() >= 0x2c { read_le32(data, 0x28) } else { 0 };
            let kind = if ver == 1 {
                LayoutKind::BootV1
            } else if ver == 2 {
                LayoutKind::BootV2
            } else if ver == 3 {
                LayoutKind::BootV3
            } else if ver == 4 {
                LayoutKind::BootV4
            } else {
                LayoutKind::BootV0
            };
            let layout = layout_of(kind);
            let total_sz = layout.total_size as usize;
            if data.len() < total_sz {
                return Err(ParseError::TruncatedHeader);
            }
            Ok(BootHeader { data: &data[0..total_sz], layout, version: BootImageVersion::Android(ver) })
        } else if bytes_match_at(data, 0, vendor_boot_magic()) {
            let ver = read_le32(data, 8);
            let kind = if ver == 4 { LayoutKind::VendorV4 } else { LayoutKind::VendorV3 };
            let layout = layout_of(kind);
            let total_sz = layout.total_size as usize;
            if data.len() < total_sz {
                return Err(ParseError::TruncatedHeader);
            }
            Ok(BootHeader { data: &data[0..total_sz], layout, version: BootImageVersion::Vendor(ver) })
        } else {
            Err(ParseError::BadMagic)
        }
    }
}

/// Whether `data` holds a Marvell PXA header: a boot magic and a page size
/// field (at the PXA offset) of at least 0x02000000.
pub open spec fn spec_is_pxa_header(data: Seq<u8>) -> bool {
    let l = spec_layout(LayoutKind::Pxa);
    &&& data.len() >= l.total_size
    &&& spec_starts_with_at(data, 0, spec_boot_magic())
    &&& spec_le32(data, l.offset_page_size as int) >= 0x02000000
}

/// Whether `data` holds a Marvell PXA header.
pub fn is_pxa_header(data: &[u8]) -> (r: bool)
    ensures
        r == spec_is_pxa_header(data@),
{
    let l = layout_of(LayoutKind::Pxa);
    if data.len() < l.total_size as usize {
        return false;
    }
    if !bytes_match_at(data, 0, boot_magic()) {
        return false;
    }
    let page_sz = read_le32(data, l.offset_page_size as usize);
    page_sz >= 0x02000000
}


/// Whether the legacy lz4 blocks that start at `off` all fit in `buf`.
pub open spec fn spec_lz4_blocks_from(buf: Seq<u8>, off: int) -> bool
    decreases buf.len() - off,
{
    if off < 0 || off + 4 > buf.len() {
        true
    } else {
        let bs = spec_le32(buf, off);
        if off + 4 + bs > buf.len() {
            false
        } else {
            spec_lz4_blocks_from(buf, off + 4 + bs)
        }
    }
}

/// Whether `buf` is a well-formed chain of legacy lz4 blocks after its magic.
pub open spec fn spec_parse_lz4_legacy_blocks(buf: Seq<u8>) -> bool {
    buf.len() >= 8 && spec_lz4_blocks_from(buf, 4)
}

fn parse_lz4_legacy_blocks(buf: &[u8]) -> (r: bool)
    ensures
        r == spec_parse_lz4_legacy_blocks(buf@),
{
    let sz = buf.len();
    if sz < 8 {
        return false;
    }
    let mut off: usize = 4;
    while off <= sz && 4 <= sz - off
        invariant
            sz == buf@.len(),
            4 <= off <= sz,
            spec_lz4_blocks_from(buf@, 4) == spec_lz4_blocks_from(buf@, off as int),
        decreases sz - off,
    {
        let block_sz = read_le32(buf, off) as usize;
        off += 4;
        if block_sz > sz - off {
            return false;
        }
        off += block_sz;
    }
    true
}

/// The format of a block, where a legacy lz4 magic followed by blocks that do
/// not chain up marks the LG variant.
pub open spec fn spec_check_fmt_lg(buf: Seq<u8>) -> CompressFormat {
    let fmt = spec_parse_compress_format(buf);
    if fmt == CompressFormat::LZ4_LEGACY && !spec_parse_lz4_legacy_blocks(buf) {
        CompressFormat::LZ4_LG
    } else {
        fmt
    }
}

fn check_fmt_lg(buf: &[u8]) -> (r: CompressFormat)
    ensures
        r == spec_check_fmt_lg(buf@),
        r != CompressFormat::ZIMAGE,
{
    let fmt = parse_compress_format(buf);
    if fmt == CompressFormat::LZ4_LEGACY {
        if !parse_lz4_legacy_blocks(buf) {
            return CompressFormat::LZ4_LG;
        }
    }
    fmt
}

/// The first position at or after `pos` where a device tree magic starts.
pub open spec fn spec_find_dtb_magic(buf: Seq<u8>, pos: int) -> Option<int>
    decreases buf.len() - pos,
{
    if pos < 0 || pos + 4 > buf.len() {
        None
    } else if spec_starts_with_at(buf, pos, spec_dtb_magic()) {
        Some(pos)
    } else {
        spec_find_dtb_magic(buf, pos + 1)
    }
}

/// The search returns the first magic at or after `pos`.
pub proof fn lemma_find_dtb_magic(buf: Seq<u8>, pos: int)
    requires
        pos >= 0,
    ensures
        spec_find_dtb_magic(buf, pos) matches Some(f) ==> pos <= f && f + 4 <= buf.len()
            && spec_starts_with_at(buf, f, spec_dtb_magic()),
        spec_find_dtb_magic(buf, pos) is None ==> forall|i: int|
            pos <= i && i + 4 <= buf.len() ==> !spec_starts_with_at(buf, i, spec_dtb_magic()),
    decreases buf.len() - pos,
{
    if pos + 4 <= buf.len() && !spec_starts_with_at(buf, pos, spec_dtb_magic()) {
        lemma_find_dtb_magic(buf, pos + 1);
    }
}

/// Where a device tree appended to a kernel starts, searching from `pos`:
/// `Some(None)` when there is none, `None` where the header of a candidate
/// points past the end of the buffer.
pub open spec fn spec_find_dtb(buf: Seq<u8>, pos: int) -> Option<Option<int>>
    decreases buf.len() - pos,
{
    if pos < 0 || pos + 32 > buf.len() {
        Some(None)
    } else {
        match spec_find_dtb_magic(buf, pos) {
            None => Some(None),
            Some(f) => {
                proof {
                    lemma_find_dtb_magic(buf, pos);
                }
                if f + 40 > buf.len() {
                    Some(None)
                } else {
                    let ts = spec_be32(buf, f + 4);
                    let ods = spec_be32(buf, f + 8);
                    if ts > buf.len() - f || ts <= 0x48 {
                        spec_find_dtb(buf, f + 4)
                    } else if ods > buf.len() - f {
                        spec_find_dtb(buf, f + 4)
                    } else if f + ods + 4 > buf.len() {
                        None
                    } else if spec_be32(buf, f + ods) != 1 {
                        spec_find_dtb(buf, f + 4)
                    } else {
                        Some(Some(f))
                    }
                }
            },
        }
    }
}

/// A device tree found in a buffer starts inside it, with room for its header.
pub proof fn lemma_find_dtb_bounds(buf: Seq<u8>, pos: int)
    ensures
        spec_find_dtb(buf, pos) matches Some(Some(f)) ==> 0 <= f && f + 40 <= buf.len(),
    decreases buf.len() - pos,
{
    if pos >= 0 && pos + 32 <= buf.len() {
        lemma_find_dtb_magic(buf, pos);
        if let Some(f) = spec_find_dtb_magic(buf, pos) {
            if f + 40 <= buf.len() {
                lemma_find_dtb_bounds(buf, f + 4);
            }
        }
    }
}

fn find_dtb_magic(buf: &[u8], pos: usize) -> (r: Option<usize>)
    ensures
        r == (match spec_find_dtb_magic(buf@, pos as int) {
            Some(f) => Some(f as usize),
            None => None::<usize>,
        }),
{
    let n = buf.len();
    let mut i = pos;
    let d = dtb_magic();
    while i <= n && 4 <= n - i
        invariant
            n == buf@.len(),
            pos <= i,
            d@ == spec_dtb_magic(),
            spec_find_dtb_magic(buf@, pos as int) == spec_find_dtb_magic(buf@, i as int),
        decreases n - i,
    {
        if bytes_match_at(buf, i, d) {
            return Some(i);
        }
        i += 1;
    }
    None
}

fn find_dtb_in_data(buf: &[u8]) -> (r: Result<Option<usize>, ParseError>)
    ensures
        match spec_find_dtb(buf@, 0) {
            None => r == Err::<Option<usize>, ParseError>(ParseError::Malformed),
            Some(None) => r == Ok::<Option<usize>, ParseError>(None),
            Some(Some(f)) => r == Ok::<Option<usize>, ParseError>(Some(f as usize)),
        },
{
    let n = buf.len();
    if n < 32 {
        return Ok(None);
    }
    let mut pos: usize = 0;
    while pos <= n && 32 <= n - pos
        invariant
            n == buf@.len(),
            spec_find_dtb(buf@, 0) == spec_find_dtb(buf@, pos as int),
        decreases n - pos,
    {
        let found = match find_dtb_magic(buf, pos) {
            Some(f) => f,
            None => return Ok(None),
        };
        proof {
            lemma_find_dtb_magic(buf@, pos as int);
        }
        if n < 40 || found > n - 40 {
            return Ok(None);
        }
        let totalsize = read_be32(buf, found + 4) as usize;
        if totalsize > n - found || totalsize <= 0x48 {
            pos = found + 4;
            continue;
        }
        let off_dt_struct = read_be32(buf, found + 8) as usize;
        if off_dt_struct > n - found {
            pos = found + 4;
            continue;
        }
        if 4 > n - found - off_dt_struct {
            return Err(ParseError::Malformed);
        }
        let tag = read_be32(buf, found + off_dt_struct);
        if tag != 1 {
            pos = found + 4;
            continue;
        }
        return Ok(Some(found));
    }
    Ok(None)
}


/// The decompression layout of an ARM zImage kernel.
pub struct ZImageInfo {
    pub hdr_size: usize,
    pub tail: Vec<u8>,
}

/// The magic of an ARM zImage, at offset 0x24.
pub const ZIMAGE_HEADER_MAGIC: u32 = 0x18286f01;

/// The end of the compressed payload of a zImage whose payload is `piggy`
/// bytes long: of the last sixteen words before `piggy`, the last that lies
/// less than 0xff below it, else `piggy` itself. `i` words are left to try.
pub open spec fn spec_piggy_end(raw: Seq<u8>, piggy: int, i: int) -> int
    decreases i,
{
    if i <= 0 {
        piggy
    } else {
        let val = spec_le32(raw, piggy - 64 + 4 * (i - 1)) as int;
        if val > piggy - 0xff && val < piggy {
            val
        } else {
            spec_piggy_end(raw, piggy, i - 1)
        }
    }
}

/// The payload size of a zImage: the end field less the start field.
pub open spec fn spec_piggy_size(raw: Seq<u8>) -> int {
    spec_le32(raw, 0x2c) - spec_le32(raw, 0x28)
}

/// Whether `raw` has the zImage magic.
pub open spec fn spec_is_zimage(raw: Seq<u8>) -> bool {
    raw.len() >= 0x30 && spec_le32(raw, 0x24) == ZIMAGE_HEADER_MAGIC
}

/// The payload end that a zImage gives.
pub open spec fn spec_zimage_end(raw: Seq<u8>) -> int {
    if spec_piggy_size(raw) >= 64 {
        spec_piggy_end(raw, spec_piggy_size(raw), 16)
    } else {
        spec_piggy_size(raw)
    }
}

/// The inputs on which reading a zImage layout does its work: the end field
/// not below the start field, a payload of 64 bytes or more not below 0xff
/// bytes, and the payload end within the kernel size.
pub open spec fn spec_zimage_readable(raw: Seq<u8>, kernel_size: int) -> bool {
    spec_is_zimage(raw) ==> {
        &&& spec_le32(raw, 0x2c) >= spec_le32(raw, 0x28)
        &&& spec_piggy_size(raw) < raw.len() ==> {
            &&& spec_piggy_size(raw) >= 64 ==> spec_piggy_size(raw) >= 0xff
            &&& spec_zimage_end(raw) <= kernel_size <= raw.len()
        }
    }
}

impl ZImageInfo {
    /// The layout of the zImage `raw`: the bytes from the end of its payload
    /// up to `kernel_size`; `None` where `raw` is no zImage or its payload
    /// does not fit.
    fn parse(raw: &[u8], kernel_size: usize) -> (r: Option<Self>)
        requires
            spec_zimage_readable(raw@, kernel_size as int),
        ensures
            match r {
                Some(z) => spec_is_zimage(raw@) && spec_piggy_size(raw@) < raw@.len() && z.hdr_size == 0
                    && z.tail@ == raw@.subrange(spec_zimage_end(raw@), kernel_size as int),
                None => !spec_is_zimage(raw@) || spec_piggy_size(raw@) >= raw@.len(),
            },
    {
        let n = raw.len();
        if n < 0x30 {
            return None;
        }
        let magic = read_le32(raw, 0x24);
        if magic != ZIMAGE_HEADER_MAGIC {
            return None;
        }
        let start = read_le32(raw, 0x28);
        let end = read_le32(raw, 0x2c);
        let piggy_size = (end - start) as usize;
        if piggy_size >= n {
            return None;
        }
        let mut piggy_end = piggy_size;
        if piggy_size >= 64 {
            let mut i: usize = 16;
            while i > 0
                invariant_except_break
                    piggy_end == piggy_size,
                invariant
                    i <= 16,
                    64 <= piggy_size < n,
                    piggy_size >= 0xff,
                    n == raw@.len(),
                    piggy_size == spec_piggy_size(raw@),
                    spec_piggy_end(raw@, piggy_size as int, 16) == spec_piggy_end(raw@, piggy_size as int, i as int),
                ensures
                    piggy_end == spec_piggy_end(raw@, piggy_size as int, 16),
                decreases i,
            {
                let val = read_le32(raw, piggy_size - 64 + 4 * (i - 1)) as usize;
                if val > piggy_size - 0xff && val < piggy_size {
                    piggy_end = val;
                    break;
                }
                i -= 1;
            }
        }
        let tail = slice_to_vec(&raw[piggy_end..kernel_size]);
        Some(ZImageInfo { hdr_size: 0, tail })
    }

    /// Where the tail starts in the output.
    fn tail_start(&self) -> (r: usize)
        ensures
            r == 0,
    {
        0
    }
}

/// The kernel block.
pub struct KernelImage<'a> {
    pub data: &'a [u8],
    pub compress_format: CompressFormat,
    pub zimage_info: Option<ZImageInfo>,
}

/// One vendor ramdisk inside the ramdisk block.
pub struct RamdiskEntry<'a> {
    pub data: &'a [u8],
    pub offset: u32,
    pub size: u32,
    pub entry_type: VendorRamdiskType,
    pub compress_format: CompressFormat,
    pub name: &'a [u8],
}

/// The ramdisk block, split into vendor ramdisks where the image has a table of them.
pub struct RamdiskImage<'a> {
    pub data: &'a [u8],
    pub compress_format: CompressFormat,
    pub vendor_entries: Option<Vec<RamdiskEntry<'a>>>,
}

/// The blocks that follow the header.
pub struct BootImageBlocks<'a> {
    pub kernel: Option<KernelImage<'a>>,
    pub ramdisk: Option<RamdiskImage<'a>>,
    pub second: Option<&'a [u8]>,
    pub extra: Option<&'a [u8]>,
    pub recovery_dtbo: Option<&'a [u8]>,
    pub dtb: Option<&'a [u8]>,
    pub signature: Option<&'a [u8]>,
    pub bootconfig: Option<&'a [u8]>,
    pub kernel_dtb: Option<&'a [u8]>,
}

/// What a vendor ramdisk entry holds.
pub struct RamdiskEntryModel {
    pub data: Seq<u8>,
    pub offset: u32,
    pub size: u32,
    pub entry_type: VendorRamdiskType,
    pub compress_format: CompressFormat,
    pub name: Seq<u8>,
}

/// What the kernel block holds.
pub struct KernelModel {
    pub data: Seq<u8>,
    pub compress_format: CompressFormat,
    pub has_zimage_info: bool,
}

/// What the ramdisk block holds.
pub struct RamdiskModel {
    pub data: Seq<u8>,
    pub compress_format: CompressFormat,
    pub vendor_entries: Option<Seq<RamdiskEntryModel>>,
}

/// What the blocks of an image hold.
pub struct BlocksModel {
    pub kernel: Option<KernelModel>,
    pub ramdisk: Option<RamdiskModel>,
    pub second: Option<Seq<u8>>,
    pub extra: Option<Seq<u8>>,
    pub recovery_dtbo: Option<Seq<u8>>,
    pub dtb: Option<Seq<u8>>,
    pub signature: Option<Seq<u8>>,
    pub bootconfig: Option<Seq<u8>>,
    pub kernel_dtb: Option<Seq<u8>>,
}

/// The bytes of an optional block.
pub open spec fn opt_bytes(o: Option<&[u8]>) -> Option<Seq<u8>> {
    match o {
        Some(s) => Some(s@),
        None => None,
    }
}

impl<'a> View for RamdiskEntry<'a> {
    type V = RamdiskEntryModel;

    open spec fn view(&self) -> RamdiskEntryModel {
        RamdiskEntryModel {
            data: self.data@,
            offset: self.offset,
            size: self.size,
            entry_type: self.entry_type,
            compress_format: self.compress_format,
            name: self.name@,
        }
    }
}

impl<'a> View for KernelImage<'a> {
    type V = KernelModel;

    open spec fn view(&self) -> KernelModel {
        KernelModel {
            data: self.data@,
            compress_format: self.compress_format,
            has_zimage_info: self.zimage_info is Some,
        }
    }
}

impl<'a> View for RamdiskImage<'a> {
    type V = RamdiskModel;

    open spec fn view(&self) -> RamdiskModel {
        RamdiskModel {
            data: self.data@,
            compress_format: self.compress_format,
            vendor_entries: match self.vendor_entries {
                Some(v) => Some(v@.map_values(|e: RamdiskEntry<'a>| e@)),
                None => None,
            },
        }
    }
}

impl<'a> View for BootImageBlocks<'a> {
    type V = BlocksModel;

    open spec fn view(&self) -> BlocksModel {
        BlocksModel {
            kernel: match self.kernel {
                Some(k) => Some(k@),
                None => None,
            },
            ramdisk: match self.ramdisk {
                Some(r) => Some(r@),
                None => None,
            },
            second: opt_bytes(self.second),
            extra: opt_bytes(self.extra),
            recovery_dtbo: opt_bytes(self.recovery_dtbo),
            dtb: opt_bytes(self.dtb),
            signature: opt_bytes(self.signature),
            bootconfig: opt_bytes(self.bootconfig),
            kernel_dtb: opt_bytes(self.kernel_dtb),
        }
    }
}

/// The header fields that give the sizes of the blocks, in the order the blocks follow the header:
/// kernel, ramdisk, second, extra, recovery dtbo, dtb, signature, vendor ramdisk table, bootconfig.
pub open spec fn spec_block_fields(l: BootHeaderLayout) -> Seq<u32> {
    seq![
        l.offset_kernel_size,
        l.offset_ramdisk_size,
        l.offset_second_size,
        l.offset_extra_size,
        l.offset_recovery_dtbo_size,
        l.offset_dtb_size,
        l.offset_signature_size,
        l.offset_vendor_ramdisk_table_size,
        l.offset_bootconfig_size,
    ]
}

/// One block after another: a block that the format lacks or whose size is zero
/// is absent; a present block starts at `off`, and the next one at `off` plus
/// its size rounded up to the page size.
pub open spec fn spec_block_at(dlen: int, h: Seq<u8>, field: u32, page: int, off: int) -> Result<(Option<(usize, usize)>, int), ParseError> {
    if field == 0 || spec_le32(h, field as int) == 0 {
        Ok((None, off))
    } else {
        let sz = spec_le32(h, field as int) as int;
        if off + sz > usize::MAX {
            Err(ParseError::Malformed)
        } else if off + sz > dlen {
            Err(ParseError::BlockOutOfBounds)
        } else if sz + page > usize::MAX || off + spec_align_to(sz, page) > usize::MAX {
            Err(ParseError::Malformed)
        } else {
            Ok((Some((off as usize, sz as usize)), off + spec_align_to(sz, page)))
        }
    }
}

fn block_ranges(dlen: usize, h: &[u8], fields: &Vec<u32>, page: usize, hs: usize) -> (r: Result<(Vec<Option<(usize, usize)>>, usize), ParseError>)
    requires
        page > 0,
        fields@.len() == 9,
        forall|j: int| 0 <= j < fields@.len() ==> #[trigger] fields@[j] + 4 <= h@.len(),
    ensures
        match spec_blocks_upto(dlen as int, h@, fields@, page as int, hs as int, 9) {
            Ok((rs, o)) => r matches Ok((v, o2)) && v@ == rs && o2 == o,
            Err(e) => r == Err::<(Vec<Option<(usize, usize)>>, usize), ParseError>(e),
        },
        r matches Ok((v, _)) ==> v@.len() == 9 && forall|j: int| 0 <= j < 9 ==> (#[trigger] v@[j] matches Some((s, n)) ==> s + n <= dlen),
{
    let mut ranges: Vec<Option<(usize, usize)>> = Vec::new();
    let mut off: usize = hs;
    let mut i: usize = 0;
    assert(ranges@ =~= Seq::<Option<(usize, usize)>>::empty());
    while i < 9
        invariant
            i <= 9,
            page > 0,
            fields@.len() == 9,
            forall|j: int| 0 <= j < fields@.len() ==> #[trigger] fields@[j] + 4 <= h@.len(),
            ranges@.len() == i,
            spec_blocks_upto(dlen as int, h@, fields@, page as int, hs as int, i as nat) == Ok::<(Seq<Option<(usize, usize)>>, int), ParseError>((ranges@, off as int)),
            forall|j: int| 0 <= j < ranges@.len() ==> (#[trigger] ranges@[j] matches Some((s, n)) ==> s + n <= dlen),
        decreases 9 - i,
    {
        let f = fields[i];
        let step = block_at(dlen, h, f, page, off);
        match step {
            Err(e) => {
                proof {
                    lemma_blocks_upto_err(dlen as int, h@, fields@, page as int, hs as int, (i + 1) as nat, 9);
                }
                return Err(e);
            },
            Ok((x, o)) => {
                ranges.push(x);
                off = o;
            },
        }
        i += 1;
    }
    Ok((ranges, off))
}

fn block_at(dlen: usize, h: &[u8], field: u32, page: usize, off: usize) -> (r: Result<(Option<(usize, usize)>, usize), ParseError>)
    requires
        field + 4 <= h@.len(),
        page > 0,
    ensures
        match spec_block_at(dlen as int, h@, field, page as int, off as int) {
            Ok((x, o)) => r == Ok::<(Option<(usize, usize)>, usize), ParseError>((x, o as usize)) && o <= usize::MAX,
            Err(e) => r == Err::<(Option<(usize, usize)>, usize), ParseError>(e),
        },
        r matches Ok((Some((s, n)), _)) ==> s + n <= dlen,
{
    if field == 0 || read_le32(h, field as usize) == 0 {
        return Ok((None, off));
    }
    let sz = read_le32(h, field as usize) as usize;
    if off > usize::MAX - sz {
        return Err(ParseError::Malformed);
    }
    if off + sz > dlen {
        return Err(ParseError::BlockOutOfBounds);
    }
    if sz > usize::MAX - page {
        return Err(ParseError::Malformed);
    }
    let a = align_to(sz, page);
    if off > usize::MAX - a {
        return Err(ParseError::Malformed);
    }
    Ok((Some((off, sz)), off + a))
}

/// The first `k` blocks, starting at `hs`.
pub open spec fn spec_blocks_upto(
    dlen: int,
    h: Seq<u8>,
    fields: Seq<u32>,
    page: int,
    hs: int,
    k: nat,
) -> Result<(Seq<Option<(usize, usize)>>, int), ParseError>
    decreases k,
{
    if k == 0 {
        Ok((Seq::empty(), hs))
    } else {
        match spec_blocks_upto(dlen, h, fields, page, hs, (k - 1) as nat) {
            Err(e) => Err(e),
            Ok((rs, off)) => match spec_block_at(dlen, h, fields[k - 1], page, off) {
                Err(e) => Err(e),
                Ok((x, o)) => Ok((rs.push(x), o)),
            },
        }
    }
}

proof fn lemma_blocks_upto_err(dlen: int, h: Seq<u8>, fields: Seq<u32>, page: int, hs: int, k: nat, j: nat)
    requires
        k <= j,
        spec_blocks_upto(dlen, h, fields, page, hs, k) is Err,
    ensures
        spec_blocks_upto(dlen, h, fields, page, hs, j) == spec_blocks_upto(dlen, h, fields, page, hs, k),
    decreases j,
{
    if j > k {
        lemma_blocks_upto_err(dlen, h, fields, page, hs, k, (j - 1) as nat);
    }
}

/// The bytes of a block range.
pub open spec fn range_bytes(d: Seq<u8>, r: Option<(usize, usize)>) -> Option<Seq<u8>> {
    match r {
        Some((s, n)) => Some(d.subrange(s as int, s + n)),
        None => None,
    }
}

/// A block without the MediaTek header that a MediaTek magic announces.
pub open spec fn spec_strip_mtk(d: Seq<u8>) -> Seq<u8> {
    if d.len() > 512 && spec_starts_with_at(d, 0, spec_mtk_magic()) {
        d.subrange(512, d.len() as int)
    } else {
        d
    }
}

/// The vendor ramdisk that entry `i` of the table `vt` describes inside `r`.
pub open spec fn spec_vendor_entry(r: Seq<u8>, vt: Seq<u8>, i: int) -> Result<RamdiskEntryModel, ParseError> {
    let e = vt.subrange(i * 108, i * 108 + 108);
    let eoff = spec_le32(e, 4);
    let esz = spec_le32(e, 0);
    if eoff + esz > usize::MAX {
        Err(ParseError::Malformed)
    } else if eoff + esz > r.len() {
        Err(ParseError::VendorEntryOutOfBounds)
    } else {
        let data = r.subrange(eoff as int, eoff + esz);
        let raw_name = e.subrange(12, 44);
        Ok(RamdiskEntryModel {
            data,
            offset: eoff,
            size: esz,
            entry_type: spec_ramdisk_type_of(spec_le32(e, 8)),
            compress_format: spec_check_fmt_lg(data),
            name: raw_name.subrange(0, spec_trim_end_len(raw_name)),
        })
    }
}

/// The first `k` vendor ramdisks of the table `vt`.
pub open spec fn spec_vendor_entries_upto(r: Seq<u8>, vt: Seq<u8>, k: nat) -> Result<Seq<RamdiskEntryModel>, ParseError>
    decreases k,
{
    if k == 0 {
        Ok(Seq::empty())
    } else {
        match spec_vendor_entries_upto(r, vt, (k - 1) as nat) {
            Err(e) => Err(e),
            Ok(s) => match spec_vendor_entry(r, vt, k - 1) {
                Err(e) => Err(e),
                Ok(m) => Ok(s.push(m)),
            },
        }
    }
}

proof fn lemma_vendor_entries_err(r: Seq<u8>, vt: Seq<u8>, k: nat, j: nat)
    requires
        k <= j,
        spec_vendor_entries_upto(r, vt, k) is Err,
    ensures
        spec_vendor_entries_upto(r, vt, j) == spec_vendor_entries_upto(r, vt, k),
    decreases j,
{
    if j > k {
        lemma_vendor_entries_err(r, vt, k, (j - 1) as nat);
    }
}

/// The ramdisk block: MediaTek header removed, and split by the vendor ramdisk table if there is one.
pub open spec fn spec_ramdisk_model(
    d: Seq<u8>,
    h: Seq<u8>,
    l: BootHeaderLayout,
    ramdisk: Option<(usize, usize)>,
    table: Option<(usize, usize)>,
) -> Result<Option<RamdiskModel>, ParseError> {
    match range_bytes(d, ramdisk) {
        None => Ok(None),
        Some(r0) => {
            let r = spec_strip_mtk(r0);
            match range_bytes(d, table) {
                None => Ok(Some(RamdiskModel { data: r, compress_format: spec_check_fmt_lg(r), vendor_entries: None })),
                Some(vt) => {
                    let esz = spec_le32(h, l.offset_vendor_ramdisk_table_entry_size as int);
                    let num = spec_le32(h, l.offset_vendor_ramdisk_table_entry_num as int);
                    if esz != 108 {
                        Err(ParseError::BadVendorTableEntrySize)
                    } else if num * 108 > usize::MAX {
                        Err(ParseError::Malformed)
                    } else if vt.len() < num * 108 {
                        Err(ParseError::TruncatedVendorTable)
                    } else {
                        match spec_vendor_entries_upto(r, vt, num as nat) {
                            Err(e) => Err(e),
                            Ok(es) => Ok(Some(RamdiskModel { data: r, compress_format: CompressFormat::UNKNOWN, vendor_entries: Some(es) })),
                        }
                    }
                },
            }
        },
    }
}

/// The kernel block without its MediaTek header, and split from a device tree
/// appended to it; `None` where a device tree candidate points past the end.
pub open spec fn spec_kernel_model(k: Option<Seq<u8>>) -> Option<(Option<KernelModel>, Option<Seq<u8>>)> {
    match k {
        None => Some((None, None)),
        Some(raw) => {
            let kd = spec_strip_mtk(raw);
            match spec_find_dtb(kd, 0) {
                None => None,
                Some(found) => match found {
                    Some(o) => if o > 0 {
                        let kk = kd.subrange(0, o);
                        Some((Some(KernelModel { data: kk, compress_format: spec_check_fmt_lg(kk), has_zimage_info: false }), Some(kd.subrange(o, kd.len() as int))))
                    } else {
                        Some((Some(KernelModel { data: kd, compress_format: spec_check_fmt_lg(kd), has_zimage_info: false }), None))
                    },
                    None => Some((Some(KernelModel { data: kd, compress_format: spec_check_fmt_lg(kd), has_zimage_info: false }), None)),
                },
            }
        },
    }
}

/// The blocks of the image `d` whose header has bytes `h`, layout `l` and
/// version `v`, and the offset after the last block.
pub open spec fn spec_blocks_parse(d: Seq<u8>, h: Seq<u8>, l: BootHeaderLayout, v: BootImageVersion) -> Result<(BlocksModel, int), ParseError> {
    let page = spec_page_size_val(h, l, v) as int;
    if page == 0 || l.total_size + page > usize::MAX {
        Err(ParseError::Malformed)
    } else {
        let hs = spec_align_to(l.total_size as int, page);
        match spec_blocks_upto(d.len() as int, h, spec_block_fields(l), page, hs, 9) {
            Err(e) => Err(e),
            Ok((rs, off)) => match spec_ramdisk_model(d, h, l, rs[1], rs[7]) {
                Err(e) => Err(e),
                Ok(ramdisk) => match spec_kernel_model(range_bytes(d, rs[0])) {
                    None => Err(ParseError::Malformed),
                    Some((kernel, kernel_dtb)) => Ok((BlocksModel {
                        kernel,
                        ramdisk,
                        second: range_bytes(d, rs[2]),
                        extra: range_bytes(d, rs[3]),
                        recovery_dtbo: range_bytes(d, rs[4]),
                        dtb: range_bytes(d, rs[5]),
                        signature: range_bytes(d, rs[6]),
                        bootconfig: range_bytes(d, rs[8]),
                        kernel_dtb,
                    }, off)),
                },
            },
        }
    }
}

/// Whether `d` is longer than a MediaTek header and starts with its magic
/// `88 16 88 58`.
pub open spec fn spec_has_mtk_header(d: Seq<u8>) -> bool {
    d.len() > 512 && d[0] == 0x88 && d[1] == 0x16 && d[2] == 0x88 && d[3] == 0x58
}

proof fn lemma_strip_mtk(d: Seq<u8>)
    ensures
        spec_strip_mtk(d) == if spec_has_mtk_header(d) {
            d.subrange(512, d.len() as int)
        } else {
            d
        },
{
    let m = spec_mtk_magic();
    if d.len() > 512 {
        if spec_has_mtk_header(d) {
            assert(d.subrange(0, 4) =~= m);
        }
        if spec_starts_with_at(d, 0, m) {
            assert(d.subrange(0, 4)[0] == m[0]);
            assert(d.subrange(0, 4)[1] == m[1]);
            assert(d.subrange(0, 4)[2] == m[2]);
            assert(d.subrange(0, 4)[3] == m[3]);
        }
    }
}

/// A kernel or ramdisk block that starts with a MediaTek header is parsed
/// without it: the kernel (with the device tree split off it) and the
/// ramdisk are the block from byte 512 on; a block without such a header is
/// taken whole. The ramdisk's format is that of what remains.
pub proof fn law_mtk_header_removed(
    raw: Seq<u8>,
    d: Seq<u8>,
    h: Seq<u8>,
    l: BootHeaderLayout,
    ramdisk: (usize, usize),
    table: Option<(usize, usize)>,
)
    ensures
        spec_kernel_model(Some(raw)) matches Some((Some(k), dtb)) ==> k.data + match dtb {
            Some(x) => x,
            None => Seq::<u8>::empty(),
        } == if spec_has_mtk_header(raw) {
            raw.subrange(512, raw.len() as int)
        } else {
            raw
        },
        spec_ramdisk_model(d, h, l, Some(ramdisk), table) matches Ok(Some(rm)) ==> {
            let r0 = d.subrange(ramdisk.0 as int, ramdisk.0 + ramdisk.1);
            &&& rm.data == if spec_has_mtk_header(r0) {
                r0.subrange(512, r0.len() as int)
            } else {
                r0
            }
            &&& table is None ==> rm.compress_format == spec_check_fmt_lg(rm.data)
        },
{
    lemma_strip_mtk(raw);
    lemma_strip_mtk(d.subrange(ramdisk.0 as int, ramdisk.0 + ramdisk.1));
    let kd = spec_strip_mtk(raw);
    lemma_find_dtb_bounds(kd, 0);
    if let Some(Some(o)) = spec_find_dtb(kd, 0) {
        if o > 0 {
            assert(kd.subrange(0, o) + kd.subrange(o, kd.len() as int) =~= kd);
        }
    }
    assert(kd + Seq::<u8>::empty() =~= kd);
}

fn block_slice<'b>(d: &'b [u8], r: Option<(usize, usize)>) -> (o: Option<&'b [u8]>)
    requires
        r matches Some((s, n)) ==> s + n <= d@.len(),
    ensures
        opt_bytes(o) == range_bytes(d@, r),
{
    let len = d.len();
    match r {
        Some((s, n)) => Some(&d[s..s + n]),
        None => None,
    }
}

fn strip_mtk<'b>(d: &'b [u8]) -> (r: &'b [u8])
    ensures
        r@ == spec_strip_mtk(d@),
        r@ == if spec_has_mtk_header(d@) {
            d@.subrange(512, d@.len() as int)
        } else {
            d@
        },
{
    proof {
        lemma_strip_mtk(d@);
    }
    if d.len() > 512 && bytes_match_at(d, 0, mtk_magic()) {
        &d[512..d.len()]
    } else {
        d
    }
}

impl<'a> BootImageBlocks<'a> {
    /// The MediaTek header removed from a block, and whether there was one.
    fn maybe_strip_mtk(data: &'a [u8]) -> (r: (&'a [u8], bool))
        ensures
            r.0@ == spec_strip_mtk(data@),
            r.1 == (data@.len() > 512 && spec_starts_with_at(data@, 0, spec_mtk_magic())),
            r.1 == spec_has_mtk_header(data@),
            r.0@ == if r.1 {
                data@.subrange(512, data@.len() as int)
            } else {
                data@
            },
    {
        proof {
            lemma_strip_mtk(data@);
        }
        if data.len() > 512 && bytes_match_at(data, 0, mtk_magic()) {
            (&data[512..data.len()], true)
        } else {
            (data, false)
        }
    }

    /// The kernel without its MediaTek header, whether it had one, and its zImage layout.
    fn parse_kernel_block(data: &'a [u8]) -> (r: (&'a [u8], bool, Option<ZImageInfo>))
        ensures
            r.0@ == spec_strip_mtk(data@),
            r.1 == (data@.len() > 512 && spec_starts_with_at(data@, 0, spec_mtk_magic())),
            r.2 is None,
    {
        if data.len() < 4 {
            return (data, false, None);
        }
        let (d, mtk) = Self::maybe_strip_mtk(data);
        (d, mtk, None)
    }

    fn vendor_entries(r: &'a [u8], vt: &'a [u8], num: usize) -> (res: Result<Vec<RamdiskEntry<'a>>, ParseError>)
        requires
            vt@.len() >= num * 108,
        ensures
            match spec_vendor_entries_upto(r@, vt@, num as nat) {
                Ok(es) => res matches Ok(v) && v@.map_values(|e: RamdiskEntry<'a>| e@) == es,
                Err(e) => res == Err::<Vec<RamdiskEntry<'a>>, ParseError>(e),
            },
    {
        let vlen = vt.len();
        let mut entries: Vec<RamdiskEntry<'a>> = Vec::new();
        assert(entries@.map_values(|e: RamdiskEntry<'a>| e@) =~= Seq::<RamdiskEntryModel>::empty());
        let mut i: usize = 0;
        while i < num
            invariant
                i <= num,
                vlen == vt@.len(),
                vt@.len() >= num * 108,
                spec_vendor_entries_upto(r@, vt@, i as nat) == Ok::<Seq<RamdiskEntryModel>, ParseError>(
                    entries@.map_values(|e: RamdiskEntry<'a>| e@)),
            decreases num - i,
        {
            proof {
                assert((i + 1) * 108 <= num * 108) by (nonlinear_arith)
                    requires i < num;
            }
            let e = &vt[i * 108..(i + 1) * 108];
            let entry = VendorRamdiskTableEntry { data: e };
            let e_off = entry.get_ramdisk_offset();
            let e_sz = entry.get_ramdisk_size();
            assert(e@ == vt@.subrange(i * 108, i * 108 + 108));
            if e_off as usize > usize::MAX - e_sz as usize {
                proof {
                    lemma_vendor_entries_err(r@, vt@, (i + 1) as nat, num as nat);
                }
                return Err(ParseError::Malformed);
            }
            let end = e_off as usize + e_sz as usize;
            if end > r.len() {
                proof {
                    lemma_vendor_entries_err(r@, vt@, (i + 1) as nat, num as nat);
                }
                return Err(ParseError::VendorEntryOutOfBounds);
            }
            let e_data = &r[e_off as usize..end];
            let name = trim_end(&e[VRT_OFFSET_RAMDISK_NAME..VRT_OFFSET_RAMDISK_NAME + VRT_SIZE_RAMDISK_NAME]);
            let ent = RamdiskEntry {
                data: e_data,
                offset: e_off,
                size: e_sz,
                entry_type: entry.get_ramdisk_type(),
                compress_format: check_fmt_lg(e_data),
                name,
            };
            proof {
                let ghost m = spec_vendor_entry(r@, vt@, i as int);
                assert(m == Ok::<RamdiskEntryModel, ParseError>(ent@));
            }
            let ghost prev = entries@;
            let ghost entv = ent@;
            entries.push(ent);
            i += 1;
            proof {
                assert(entries@.map_values(|e: RamdiskEntry<'a>| e@) =~= prev.map_values(
                    |e: RamdiskEntry<'a>| e@).push(entv));
            }
        }
        Ok(entries)
    }

    /// Splits the image `data`, whose header is `header`, into its blocks, and
    /// returns them with the offset that follows the last block.
    pub fn parse(data: &'a [u8], header: &BootHeader) -> (r: Result<(Self, usize), ParseError>)
        ensures
            match spec_blocks_parse(data@, header.spec_data(), header.spec_layout(), header.spec_version()) {
                Ok((m, off)) => r matches Ok((b, o)) && b@ == m && o == off,
                Err(e) => r matches Err(e2) && e2 == e,
            },
    {
        proof {
            use_type_invariant(header);
        }
        let dlen = data.len();
        let l = header.get_layout();
        let page = header.page_size_val() as usize;
        if page == 0 || l.total_size as usize > usize::MAX - page {
            return Err(ParseError::Malformed);
        }
        let hs = header.hdr_space();
        let fields: Vec<u32> = vec![
            l.offset_kernel_size,
            l.offset_ramdisk_size,
            l.offset_second_size,
            l.offset_extra_size,
            l.offset_recovery_dtbo_size,
            l.offset_dtb_size,
            l.offset_signature_size,
            l.offset_vendor_ramdisk_table_size,
            l.offset_bootconfig_size,
        ];
        let ghost h = header.spec_data();
        assert(fields@ =~= spec_block_fields(l));
        proof {
            assert forall|j: int| 0 <= j < fields@.len() implies #[trigger] fields@[j] + 4 <= h.len() by {
                assert(layout_wf(l));
            }
        }
        let (ranges, off) = match block_ranges(dlen, header.data, &fields, page, hs) {
            Ok(x) => x,
            Err(e) => return Err(e),
        };
        let kernel_raw = block_slice(data, ranges[0]);
        let ramdisk_raw = block_slice(data, ranges[1]);
        let second = block_slice(data, ranges[2]);
        let extra = block_slice(data, ranges[3]);
        let recovery_dtbo = block_slice(data, ranges[4]);
        let dtb = block_slice(data, ranges[5]);
        let signature = block_slice(data, ranges[6]);
        let vendor_table = block_slice(data, ranges[7]);
        let bootconfig = block_slice(data, ranges[8]);

        let ramdisk = match ramdisk_raw {
            Some(r0) => {
                let (r, _mtk) = Self::maybe_strip_mtk(r0);
                match vendor_table {
                    Some(vt) => {
                        let entry_sz = read_le32(header.data, l.offset_vendor_ramdisk_table_entry_size as usize) as usize;
                        if entry_sz != VRT_ENTRY_SIZE {
                            return Err(ParseError::BadVendorTableEntrySize);
                        }
                        let entry_num = read_le32(header.data, l.offset_vendor_ramdisk_table_entry_num as usize) as usize;
                        if entry_num > usize::MAX / 108 {
                            return Err(ParseError::Malformed);
                        }
                        let expected = entry_num * entry_sz;
                        if vt.len() < expected {
                            return Err(ParseError::TruncatedVendorTable);
                        }
                        let entries = match Self::vendor_entries(r, vt, entry_num) {
                            Ok(es) => es,
                            Err(e) => return Err(e),
                        };
                        Some(RamdiskImage { data: r, compress_format: CompressFormat::UNKNOWN, vendor_entries: Some(entries) })
                    },
                    None => Some(RamdiskImage { data: r, compress_format: check_fmt_lg(r), vendor_entries: None }),
                }
            },
            None => None,
        };

        let mut kernel_dtb: Option<&'a [u8]> = None;
        let kernel = match kernel_raw {
            Some(k) => {
                let (kd, _mtk, zinfo) = Self::parse_kernel_block(k);
                proof {
                    lemma_find_dtb_bounds(kd@, 0);
                }
                let dtb_off = match find_dtb_in_data(kd) {
                    Ok(o) => o,
                    Err(e) => return Err(e),
                };
                match dtb_off {
                    Some(o) => if o > 0 {
                        kernel_dtb = Some(&kd[o..kd.len()]);
                        let kk = &kd[0..o];
                        Some(KernelImage { data: kk, compress_format: check_fmt_lg(kk), zimage_info: None })
                    } else {
                        Some(KernelImage { data: kd, compress_format: check_fmt_lg(kd), zimage_info: None })
                    },
                    None => Some(KernelImage { data: kd, compress_format: check_fmt_lg(kd), zimage_info: None }),
                }
            },
            None => None,
        };
        let blocks = BootImageBlocks {
            kernel,
            ramdisk,
            second,
            extra,
            recovery_dtbo,
            dtb,
            signature,
            bootconfig,
            kernel_dtb,
        };
        proof {
            let ghost m = spec_blocks_parse(data@, h, l, header.spec_version());
            assert(m matches Ok((mm, o)) && mm == blocks@ && o == off);
        }
        Ok((blocks, off))
    }
}


/// Offsets inside an AVB footer.
pub const AVB_OFFSET_ORIGINAL_IMAGE_SIZE: usize = 12;
pub const AVB_OFFSET_VBMETA_OFFSET: usize = 20;
pub const AVB_OFFSET_VBMETA_SIZE: usize = 28;

/// The AVB footer, the vbmeta image it points to, and the data between the
/// last block and the original image end.
pub struct AvbInfo<'a> {
    pub footer_data: &'a [u8],
    pub header_data: &'a [u8],
    pub tail_data: Option<&'a [u8]>,
}

/// What the AVB parts of an image hold.
pub struct AvbModel {
    pub footer_data: Seq<u8>,
    pub header_data: Seq<u8>,
    pub tail_data: Option<Seq<u8>>,
}

impl<'a> View for AvbInfo<'a> {
    type V = AvbModel;

    open spec fn view(&self) -> AvbModel {
        AvbModel { footer_data: self.footer_data@, header_data: self.header_data@, tail_data: opt_bytes(self.tail_data) }
    }
}

impl AvbInfo<'_> {
    /// The original image size the footer records.
    pub fn get_original_image_size(&self) -> (r: u64)
        requires
            self.footer_data@.len() >= 36,
        ensures
            r == spec_be64(self.footer_data@, AVB_OFFSET_ORIGINAL_IMAGE_SIZE as int),
    {
        read_be64(self.footer_data, AVB_OFFSET_ORIGINAL_IMAGE_SIZE)
    }

    /// The vbmeta offset the footer records.
    pub fn get_vbmeta_offset(&self) -> (r: u64)
        requires
            self.footer_data@.len() >= 36,
        ensures
            r == spec_be64(self.footer_data@, AVB_OFFSET_VBMETA_OFFSET as int),
    {
        read_be64(self.footer_data, AVB_OFFSET_VBMETA_OFFSET)
    }

    /// The vbmeta size the footer records.
    pub fn get_vbmeta_size(&self) -> (r: u64)
        requires
            self.footer_data@.len() >= 36,
        ensures
            r == spec_be64(self.footer_data@, AVB_OFFSET_VBMETA_SIZE as int),
    {
        read_be64(self.footer_data, AVB_OFFSET_VBMETA_SIZE)
    }
}

/// A parsed boot image.
pub struct BootImage<'a> {
    pub data: &'a [u8],
    pub header: BootHeader<'a>,
    pub blocks: BootImageBlocks<'a>,
    pub avb_info: Option<AvbInfo<'a>>,
    pub is_chromeos: bool,
    pub is_dhtb: bool,
    pub is_blob: bool,
    pub is_seandroid: bool,
    pub is_lg_bump: bool,
    pub is_nookhd: bool,
    pub is_acclaim: bool,
    pub is_amonet: bool,
    pub mtk_kernel: bool,
    pub mtk_ramdisk: bool,
    pub sha256_id: bool,
    pub tail_offset: usize,
    pub payload_offset: usize,
}

/// `curs + k`, but no further than `len`.
pub open spec fn spec_skip(curs: int, k: int, len: int) -> int {
    if curs + k >= len { len } else { curs + k }
}

/// Where the first header magic lies, and which wrappers were skipped before it.
pub struct ScanModel {
    pub found: Option<int>,
    pub chromeos: bool,
    pub dhtb: bool,
    pub blob: bool,
}

/// The search for a header from `curs` on: a ChromeOS wrapper skips 65536
/// bytes, a DHTB wrapper 512, a signed blob 80, anything else one byte.
pub open spec fn spec_scan(data: Seq<u8>, curs: int) -> ScanModel
    decreases data.len() - curs,
{
    if curs < 0 || curs >= data.len() {
        ScanModel { found: None, chromeos: false, dhtb: false, blob: false }
    } else if spec_starts_with_at(data, curs, spec_chromeos_magic()) {
        let r = spec_scan(data, spec_skip(curs, 65536, data.len() as int));
        ScanModel { found: r.found, chromeos: true, dhtb: r.dhtb, blob: r.blob }
    } else if spec_starts_with_at(data, curs, spec_dhtb_magic()) {
        let r = spec_scan(data, spec_skip(curs, 512, data.len() as int));
        ScanModel { found: r.found, chromeos: r.chromeos, dhtb: true, blob: r.blob }
    } else if spec_starts_with_at(data, curs, spec_blob_magic()) {
        let r = spec_scan(data, spec_skip(curs, 80, data.len() as int));
        ScanModel { found: r.found, chromeos: r.chromeos, dhtb: r.dhtb, blob: true }
    } else if spec_starts_with_at(data, curs, spec_boot_magic())
        || spec_starts_with_at(data, curs, spec_vendor_boot_magic()) {
        ScanModel { found: Some(curs), chromeos: false, dhtb: false, blob: false }
    } else {
        spec_scan(data, curs + 1)
    }
}

/// The header that the search finds lies inside the data.
pub proof fn lemma_scan_bounds(data: Seq<u8>, curs: int)
    ensures
        spec_scan(data, curs).found matches Some(f) ==> 0 <= curs <= f < data.len(),
    decreases data.len() - curs,
{
    if curs >= 0 && curs < data.len() {
        if spec_starts_with_at(data, curs, spec_chromeos_magic()) {
            lemma_scan_bounds(data, spec_skip(curs, 65536, data.len() as int));
        } else if spec_starts_with_at(data, curs, spec_dhtb_magic()) {
            lemma_scan_bounds(data, spec_skip(curs, 512, data.len() as int));
        } else if spec_starts_with_at(data, curs, spec_blob_magic()) {
            lemma_scan_bounds(data, spec_skip(curs, 80, data.len() as int));
        } else if !(spec_starts_with_at(data, curs, spec_boot_magic())
            || spec_starts_with_at(data, curs, spec_vendor_boot_magic())) {
            lemma_scan_bounds(data, curs + 1);
        }
    }
}

/// Whether a NookHD pre-header marker stands in the command line of `rem`.
pub open spec fn spec_nookhd_marker(rem: Seq<u8>) -> bool {
    ||| spec_starts_with_at(rem, 148, spec_nookhd_rl_magic())
    ||| spec_starts_with_at(rem, 148, spec_nookhd_gl_magic())
    ||| spec_starts_with_at(rem, 148, spec_nookhd_gr_magic())
    ||| spec_starts_with_at(rem, 148, spec_nookhd_eb_magic())
    ||| spec_starts_with_at(rem, 148, spec_nookhd_er_magic())
}

/// The payload offset for a header magic found at `f`, and whether a NookHD,
/// Acclaim or amonet pre-header was recognised.
pub open spec fn spec_payload_info(data: Seq<u8>, f: int) -> (int, bool, bool, bool) {
    let rem = data.subrange(f, data.len() as int);
    if spec_starts_with_at(rem, 0, spec_boot_magic()) && rem.len() >= 1640 {
        let nook = spec_nookhd_marker(rem);
        let acc = !nook && spec_starts_with_at(rem, 64, spec_acclaim_magic());
        let amo = !nook && !acc && !spec_is_pxa_header(rem) && rem.len() > 1032
            && spec_starts_with_at(rem, 0, spec_amonet_microloader_magic())
            && spec_starts_with_at(rem, 1024, spec_boot_magic());
        let off = if nook { f + 1048576 } else if acc { f + 262144 } else { f };
        (if amo { 0 } else { off }, nook, acc, amo)
    } else {
        (f, false, false, false)
    }
}

/// The AVB parts of the payload whose blocks end at `toff`.
pub open spec fn spec_avb(payload: Seq<u8>, toff: int) -> Result<Option<AvbModel>, ParseError> {
    if payload.len() - toff < 64 {
        Ok(None)
    } else {
        let footer = payload.subrange(payload.len() - 64, payload.len() as int);
        if !spec_starts_with_at(footer, 0, spec_avb_footer_magic()) {
            Ok(None)
        } else {
            let vo = spec_be64(footer, 20) as usize as int;
            if !(vo < payload.len() && spec_starts_with_at(payload, vo, spec_avb_magic())) {
                Ok(None)
            } else {
                let vs = spec_be64(footer, 28) as usize as int;
                let orig = spec_be64(footer, 12) as usize as int;
                if vo + vs > usize::MAX || vo + vs > payload.len() {
                    Err(ParseError::Malformed)
                } else if orig > toff && orig > payload.len() {
                    Err(ParseError::Malformed)
                } else {
                    Ok(Some(AvbModel {
                        footer_data: footer,
                        header_data: payload.subrange(vo, vo + vs),
                        tail_data: if orig > toff { Some(payload.subrange(toff, orig)) } else { None },
                    }))
                }
            }
        }
    }
}

/// Whether the id field of header `h` goes on past a SHA-1 digest.
pub open spec fn spec_sha256_id(h: Seq<u8>, l: BootHeaderLayout) -> bool {
    l.offset_id != 0 && l.size_id > 24 && exists|j: int| 24 <= j < l.size_id && #[trigger] h[l.offset_id + j] != 0
}

/// What parsing an image finds.
pub struct BootImageModel {
    pub payload_offset: int,
    pub header_data: Seq<u8>,
    pub layout: BootHeaderLayout,
    pub version: BootImageVersion,
    pub blocks: BlocksModel,
    pub avb: Option<AvbModel>,
    pub chromeos: bool,
    pub dhtb: bool,
    pub blob: bool,
    pub seandroid: bool,
    pub lg_bump: bool,
    pub nookhd: bool,
    pub acclaim: bool,
    pub amonet: bool,
    pub sha256_id: bool,
    pub tail_offset: int,
}

/// Where the payload starts: the header offset, the wrappers skipped before it
/// and the pre-headers recognised.
pub open spec fn spec_locate_payload(data: Seq<u8>) -> Result<(int, ScanModel, (int, bool, bool, bool)), ParseError> {
    let sc = spec_scan(data, 0);
    let info = match sc.found {
        Some(f) => spec_payload_info(data, f),
        None => (0, false, false, false),
    };
    if info.0 > data.len() {
        Err(ParseError::Malformed)
    } else if data.len() - info.0 == 0 {
        Err(ParseError::NoHeader)
    } else {
        Ok((info.0, sc, info))
    }
}

/// The SEAndroid and LG bump markers at the start of the tail.
pub open spec fn spec_tail_markers(tail: Seq<u8>) -> (bool, bool) {
    let sean = tail.len() >= 16 && spec_starts_with_at(tail, 0, spec_seandroid_magic());
    let lg = tail.len() >= 16 && !sean && spec_starts_with_at(tail, 0, spec_lg_bump_magic());
    (sean, lg)
}

/// The outcome of parsing the image `data`.
pub open spec fn spec_boot_image_parse(data: Seq<u8>) -> Result<BootImageModel, ParseError> {
    match spec_locate_payload(data) {
        Err(e) => Err(e),
        Ok((poff, sc, info)) => {
            let payload = data.subrange(poff, data.len() as int);
            match spec_header_parse(payload) {
                Err(e) => Err(e),
                Ok((l, v)) => {
                    let h = payload.subrange(0, l.total_size as int);
                    match spec_blocks_parse(payload, h, l, v) {
                        Err(e) => Err(e),
                        Ok((bm, toff)) => if toff > payload.len() {
                            Err(ParseError::Malformed)
                        } else {
                            let marks = spec_tail_markers(payload.subrange(toff, payload.len() as int));
                            match spec_avb(payload, toff) {
                                Err(e) => Err(e),
                                Ok(avb) => Ok(BootImageModel {
                                    payload_offset: poff,
                                    header_data: h,
                                    layout: l,
                                    version: v,
                                    blocks: bm,
                                    avb,
                                    chromeos: sc.chromeos,
                                    dhtb: sc.dhtb,
                                    blob: sc.blob,
                                    seandroid: marks.0,
                                    lg_bump: marks.1,
                                    nookhd: info.1,
                                    acclaim: info.2,
                                    amonet: info.3,
                                    sha256_id: spec_sha256_id(h, l),
                                    tail_offset: poff + toff,
                                }),
                            }
                        },
                    }
                },
            }
        },
    }
}

/// Where a parsed image has AVB data, its footer is the last 64 bytes of the
/// payload and starts with the footer magic, and the vbmeta offset and size
/// that the footer records point at the vbmeta header: the payload holds the
/// vbmeta magic there, and those bytes are the vbmeta data.
pub proof fn law_avb_points_at_vbmeta(data: Seq<u8>)
    ensures
        spec_boot_image_parse(data) matches Ok(m) ==> (m.avb matches Some(a) ==> {
            let pd = data.subrange(m.payload_offset, data.len() as int);
            let vo = spec_be64(a.footer_data, AVB_OFFSET_VBMETA_OFFSET as int) as usize as int;
            let vs = spec_be64(a.footer_data, AVB_OFFSET_VBMETA_SIZE as int) as usize as int;
            &&& a.footer_data.len() == AVB_FOOTER_SIZE
            &&& a.footer_data == pd.subrange(pd.len() - AVB_FOOTER_SIZE, pd.len() as int)
            &&& spec_starts_with_at(a.footer_data, 0, spec_avb_footer_magic())
            &&& spec_starts_with_at(pd, vo, spec_avb_magic())
            &&& a.header_data == pd.subrange(vo, vo + vs)
        }),
{
}

/// The AVB view of an optional AVB part.
pub open spec fn opt_avb(o: Option<AvbInfo>) -> Option<AvbModel> {
    match o {
        Some(a) => Some(a@),
        None => None,
    }
}

fn scan_for_header(data: &[u8]) -> (r: (Option<usize>, bool, bool, bool))
    ensures
        r.0 matches Some(f) ==> f < data@.len(),
        ({
            let m = spec_scan(data@, 0);
            &&& r.1 == m.chromeos && r.2 == m.dhtb && r.3 == m.blob
            &&& match m.found {
                Some(f) => r.0 == Some(f as usize),
                None => r.0 is None,
            }
        }),
{
    let n = data.len();
    let mut chromeos = false;
    let mut dhtb = false;
    let mut blob = false;
    let mut curs: usize = 0;
    let cm = chromeos_magic();
    let dm = dhtb_magic();
    let bm = blob_magic();
    let am = boot_magic();
    let vm = vendor_boot_magic();
    while curs < n
        invariant
            n == data@.len(),
            cm@ == spec_chromeos_magic(),
            dm@ == spec_dhtb_magic(),
            bm@ == spec_blob_magic(),
            am@ == spec_boot_magic(),
            vm@ == spec_vendor_boot_magic(),
            ({
                let m0 = spec_scan(data@, 0);
                let m = spec_scan(data@, curs as int);
                m0.found == m.found && m0.chromeos == (chromeos || m.chromeos) && m0.dhtb == (dhtb
                    || m.dhtb) && m0.blob == (blob || m.blob)
            }),
        decreases n - curs,
    {
        if bytes_match_at(data, curs, cm) {
            chromeos = true;
            let ghost c0 = curs;
            if n - curs <= 65536 {
                curs = n;
            } else {
                curs += 65536;
            }
            assert(curs == spec_skip(c0 as int, 65536, n as int));
            continue;
        }
        if bytes_match_at(data, curs, dm) {
            dhtb = true;
            let ghost c0 = curs;
            if n - curs <= 512 {
                curs = n;
            } else {
                curs += 512;
            }
            assert(curs == spec_skip(c0 as int, 512, n as int));
            continue;
        }
        if bytes_match_at(data, curs, bm) {
            blob = true;
            let ghost c0 = curs;
            if n - curs <= 80 {
                curs = n;
            } else {
                curs += 80;
            }
            assert(curs == spec_skip(c0 as int, 80, n as int));
            continue;
        }
        if bytes_match_at(data, curs, am) || bytes_match_at(data, curs, vm) {
            return (Some(curs), chromeos, dhtb, blob);
        }
        curs += 1;
    }
    (None, chromeos, dhtb, blob)
}

fn payload_info(data: &[u8], f: usize) -> (r: (Option<usize>, bool, bool, bool))
    requires
        f <= data@.len(),
    ensures
        ({
            let s = spec_payload_info(data@, f as int);
            &&& s.1 == r.1 && s.2 == r.2 && s.3 == r.3
            &&& match r.0 {
                Some(o) => s.0 == o,
                None => s.0 > usize::MAX,
            }
        }),
{
    let rem = &data[f..data.len()];
    if bytes_match_at(rem, 0, boot_magic()) && rem.len() >= 1640 {
        let nook = bytes_match_at(rem, 148, nookhd_rl_magic()) || bytes_match_at(rem, 148, nookhd_gl_magic())
            || bytes_match_at(rem, 148, nookhd_gr_magic()) || bytes_match_at(rem, 148, nookhd_eb_magic())
            || bytes_match_at(rem, 148, nookhd_er_magic());
        let acc = !nook && bytes_match_at(rem, 64, acclaim_magic());
        let amo = !nook && !acc && !is_pxa_header(rem) && rem.len() > 1032 && bytes_match_at(rem, 0, amonet_microloader_magic())
            && bytes_match_at(rem, 1024, boot_magic());
        let off = if nook {
            if f > usize::MAX - 1048576 {
                None
            } else {
                Some(f + 1048576)
            }
        } else if acc {
            if f > usize::MAX - 262144 {
                None
            } else {
                Some(f + 262144)
            }
        } else {
            Some(f)
        };
        (if amo { Some(0) } else { off }, nook, acc, amo)
    } else {
        (Some(f), false, false, false)
    }
}


fn any_nonzero_from(s: &[u8], start: usize) -> (r: bool)
    ensures
        r == exists|j: int| start <= j < s@.len() && #[trigger] s@[j] != 0,
{
    let mut i = start;
    while i < s.len()
        invariant
            start <= i,
            forall|j: int| start <= j < i && j < s@.len() ==> #[trigger] s@[j] == 0,
        decreases s@.len() - i,
    {
        if s[i] != 0 {
            return true;
        }
        i += 1;
    }
    false
}

fn locate_payload(data: &[u8]) -> (r: Result<(usize, bool, bool, bool, bool, bool, bool), ParseError>)
    ensures
        match spec_locate_payload(data@) {
            Ok((poff, sc, info)) => r matches Ok(x) && x.0 == poff && x.1 == sc.chromeos && x.2 == sc.dhtb
                && x.3 == sc.blob && x.4 == info.1 && x.5 == info.2 && x.6 == info.3 && poff < data@.len(),
            Err(e) => r matches Err(e2) && e2 == e,
        },
{
    let dlen = data.len();
    let (found, chromeos, dhtb, blob) = scan_for_header(data);
    proof {
        lemma_scan_bounds(data@, 0);
    }
    let ghost sc = spec_scan(data@, 0);
    let ghost info = match sc.found {
        Some(f) => spec_payload_info(data@, f),
        None => (0int, false, false, false),
    };
    let (poff_opt, nookhd, acclaim, amonet) = match found {
        Some(f) => payload_info(data, f),
        None => (Some(0usize), false, false, false),
    };
    assert(info.1 == nookhd && info.2 == acclaim && info.3 == amonet);
    assert(poff_opt matches Some(o) ==> info.0 == o);
    assert(poff_opt is None ==> info.0 > usize::MAX);
    let payload_offset = match poff_opt {
        Some(o) => o,
        None => return Err(ParseError::Malformed),
    };
    if payload_offset > dlen {
        return Err(ParseError::Malformed);
    }
    if dlen - payload_offset == 0 {
        return Err(ParseError::NoHeader);
    }
    Ok((payload_offset, chromeos, dhtb, blob, nookhd, acclaim, amonet))
}

fn tail_markers(tail: &[u8]) -> (r: (bool, bool))
    ensures
        r == spec_tail_markers(tail@),
{
    let mut seandroid = false;
    let mut lg_bump = false;
    if tail.len() >= 16 {
        if bytes_match_at(tail, 0, seandroid_magic()) {
            seandroid = true;
        } else if bytes_match_at(tail, 0, lg_bump_magic()) {
            lg_bump = true;
        }
    }
    (seandroid, lg_bump)
}

fn parse_avb<'b>(payload: &'b [u8], tail_off: usize) -> (r: Result<Option<AvbInfo<'b>>, ParseError>)
    requires
        tail_off <= payload@.len(),
    ensures
        match spec_avb(payload@, tail_off as int) {
            Ok(a) => r matches Ok(x) && opt_avb(x) == a,
            Err(e) => r matches Err(e2) && e2 == e,
        },
{
    let plen = payload.len();
    if plen - tail_off < 64 {
        return Ok(None);
    }
    let footer = &payload[plen - 64..plen];
    if !bytes_match_at(footer, 0, avb_footer_magic()) {
        return Ok(None);
    }
    let vo = read_be64(footer, AVB_OFFSET_VBMETA_OFFSET) as usize;
    if !(vo < plen && bytes_match_at(payload, vo, avb_magic())) {
        return Ok(None);
    }
    let vs = read_be64(footer, AVB_OFFSET_VBMETA_SIZE) as usize;
    let orig = read_be64(footer, AVB_OFFSET_ORIGINAL_IMAGE_SIZE) as usize;
    if vo > usize::MAX - vs || vo + vs > plen {
        return Err(ParseError::Malformed);
    }
    if orig > tail_off && orig > plen {
        return Err(ParseError::Malformed);
    }
    let vbmeta_data = &payload[vo..vo + vs];
    let avb_tail = if orig > tail_off {
        Some(&payload[tail_off..orig])
    } else {
        None
    };
    Ok(Some(AvbInfo { footer_data: footer, header_data: vbmeta_data, tail_data: avb_tail }))
}

impl<'a> BootImage<'a> {
    /// Whether the parsed image holds what `m` describes.
    pub open spec fn matches_model(&self, m: BootImageModel) -> bool {
        &&& self.header.spec_data() == m.header_data
        &&& self.header.spec_layout() == m.layout
        &&& self.header.spec_version() == m.version
        &&& self.blocks@ == m.blocks
        &&& opt_avb(self.avb_info) == m.avb
        &&& self.is_chromeos == m.chromeos
        &&& self.is_dhtb == m.dhtb
        &&& self.is_blob == m.blob
        &&& self.is_seandroid == m.seandroid
        &&& self.is_lg_bump == m.lg_bump
        &&& self.is_nookhd == m.nookhd
        &&& self.is_acclaim == m.acclaim
        &&& self.is_amonet == m.amonet
        &&& !self.mtk_kernel
        &&& !self.mtk_ramdisk
        &&& self.sha256_id == m.sha256_id
        &&& self.tail_offset == m.tail_offset
        &&& self.payload_offset == m.payload_offset
    }

    /// Finds the header in `data`, past any wrapper, and splits the image into its parts.
    pub fn parse(data: &'a [u8]) -> (r: Result<Self, ParseError>)
        ensures
            match spec_boot_image_parse(data@) {
                Ok(m) => r matches Ok(img) && img.data@ == data@ && img.matches_model(m),
                Err(e) => r matches Err(e2) && e2 == e,
            },
    {
        let (payload_offset, chromeos, dhtb, blob, nookhd, acclaim, amonet) = match locate_payload(data) {
            Ok(x) => x,
            Err(e) => return Err(e),
        };
        let payload = &data[payload_offset..data.len()];
        let header = match BootHeader::parse(payload) {
            Ok(h) => h,
            Err(e) => return Err(e),
        };
        let (blocks, tail_off) = match BootImageBlocks::parse(payload, &header) {
            Ok(x) => x,
            Err(e) => return Err(e),
        };
        let plen = payload.len();
        if tail_off > plen {
            return Err(ParseError::Malformed);
        }
        let tail = &payload[tail_off..plen];
        let (seandroid, lg_bump) = tail_markers(tail);
        let avb_info = match parse_avb(payload, tail_off) {
            Ok(a) => a,
            Err(e) => return Err(e),
        };
        proof {
            use_type_invariant(&header);
        }
        let header_layout = header.get_layout();
        let ghost mut id_view: Seq<u8> = Seq::empty();
        let sha256 = if header.has_id() {
            let id = header.get_id();
            proof {
                id_view = id@;
            }
            id.len() > 24 && any_nonzero_from(id, 24)
        } else {
            false
        };
        let img = BootImage {
            data,
            header,
            blocks,
            avb_info,
            is_chromeos: chromeos,
            is_dhtb: dhtb,
            is_blob: blob,
            is_seandroid: seandroid,
            is_lg_bump: lg_bump,
            is_nookhd: nookhd,
            is_acclaim: acclaim,
            is_amonet: amonet,
            mtk_kernel: false,
            mtk_ramdisk: false,
            sha256_id: sha256,
            tail_offset: payload_offset + tail_off,
            payload_offset,
        };
        proof {
            let m = spec_boot_image_parse(data@);
            let l = header_layout;
            let h = img.header.spec_data();
            if l.offset_id != 0 && l.size_id > 24 {
                if spec_sha256_id(h, l) {
                    let j = choose|j: int| 24 <= j < l.size_id && #[trigger] h[l.offset_id + j] != 0;
                    assert(id_view[j] != 0);
                }
                if sha256 {
                    let j = choose|j: int| 24 <= j < id_view.len() && #[trigger] id_view[j] != 0;
                    assert(h[l.offset_id + j] != 0);
                }
            }
            assert(m matches Ok(mm) && img.matches_model(mm));
        }
        Ok(img)
    }
}

} // verus!
