//! Field offsets of the boot image header formats.
use vstd::prelude::*;

verus! {

/// Where each field of a header format lies; an offset of zero means that the format has no such field.
#[derive(Debug, Clone, Copy, PartialEq, Eq, Structural)]
pub struct BootHeaderLayout {
    pub offset_kernel_size: u32,
    pub offset_ramdisk_size: u32,
    pub offset_second_size: u32,
    pub offset_page_size: u32,
    pub offset_header_version: u32,
    pub offset_os_version: u32,
    pub offset_extra_size: u32,
    pub offset_recovery_dtbo_size: u32,
    pub offset_recovery_dtbo_offset: u32,
    pub offset_header_size: u32,
    pub offset_dtb_size: u32,
    pub offset_signature_size: u32,
    pub offset_vendor_ramdisk_table_size: u32,
    pub offset_vendor_ramdisk_table_entry_num: u32,
    pub offset_vendor_ramdisk_table_entry_size: u32,
    pub offset_bootconfig_size: u32,
    pub offset_name: u32,
    pub size_name: u32,
    pub offset_cmdline: u32,
    pub size_cmdline: u32,
    pub offset_id: u32,
    pub size_id: u32,
    pub offset_extra_cmdline: u32,
    pub size_extra_cmdline: u32,
    pub total_size: u32,
}

/// The header formats this library reads.
#[derive(Debug, Clone, Copy, PartialEq, Eq, Structural)]
pub enum LayoutKind {
    /// Android boot image header, version 0.
    BootV0,
    /// Android boot image header, version 1.
    BootV1,
    /// Android boot image header, version 2.
    BootV2,
    /// Android boot image header, version 3.
    BootV3,
    /// Android boot image header, version 4.
    BootV4,
    /// Vendor boot image header, version 3.
    VendorV3,
    /// Vendor boot image header, version 4.
    VendorV4,
    /// Marvell PXA boot image header.
    Pxa,
}

/// The field offsets of a header format.
pub open spec fn spec_layout(kind: LayoutKind) -> BootHeaderLayout {
    match kind {
        LayoutKind::BootV0 => BootHeaderLayout {
            offset_kernel_size: 8,
            offset_ramdisk_size: 16,
            offset_second_size: 24,
            offset_page_size: 36,
            offset_header_version: 40,
            offset_os_version: 44,
            offset_extra_size: 0,
            offset_recovery_dtbo_size: 0,
            offset_recovery_dtbo_offset: 0,
            offset_header_size: 0,
            offset_dtb_size: 0,
            offset_signature_size: 0,
            offset_vendor_ramdisk_table_size: 0,
            offset_vendor_ramdisk_table_entry_num: 0,
            offset_vendor_ramdisk_table_entry_size: 0,
            offset_bootconfig_size: 0,
            offset_name: 48,
            size_name: 16,
            offset_cmdline: 64,
            size_cmdline: 512,
            offset_id: 576,
            size_id: 32,
            offset_extra_cmdline: 608,
            size_extra_cmdline: 1024,
            total_size: 1632,
        },
        LayoutKind::BootV1 => BootHeaderLayout {
            offset_kernel_size: 8,
            offset_ramdisk_size: 16,
            offset_second_size: 24,
            offset_page_size: 36,
            offset_header_version: 40,
            offset_os_version: 44,
            offset_extra_size: 0,
            offset_recovery_dtbo_size: 1632,
            offset_recovery_dtbo_offset: 1636,
            offset_header_size: 1644,
            offset_dtb_size: 0,
            offset_signature_size: 0,
            offset_vendor_ramdisk_table_size: 0,
            offset_vendor_ramdisk_table_entry_num: 0,
            offset_vendor_ramdisk_table_entry_size: 0,
            offset_bootconfig_size: 0,
            offset_name: 48,
            size_name: 16,
            offset_cmdline: 64,
            size_cmdline: 512,
            offset_id: 576,
            size_id: 32,
            offset_extra_cmdline: 608,
            size_extra_cmdline: 1024,
            total_size: 1648,
        },
        LayoutKind::BootV2 => BootHeaderLayout {
            offset_kernel_size: 8,
            offset_ramdisk_size: 16,
            offset_second_size: 24,
            offset_page_size: 36,
            offset_header_version: 40,
            offset_os_version: 44,
            offset_extra_size: 0,
            offset_recovery_dtbo_size: 1632,
            offset_recovery_dtbo_offset: 1636,
            offset_header_size: 1644,
            offset_dtb_size: 1648,
            offset_signature_size: 0,
            offset_vendor_ramdisk_table_size: 0,
            offset_vendor_ramdisk_table_entry_num: 0,
            offset_vendor_ramdisk_table_entry_size: 0,
            offset_bootconfig_size: 0,
            offset_name: 48,
            size_name: 16,
            offset_cmdline: 64,
            size_cmdline: 512,
            offset_id: 576,
            size_id: 32,
            offset_extra_cmdline: 608,
            size_extra_cmdline: 1024,
            total_size: 1660,
        },
        LayoutKind::BootV3 => BootHeaderLayout {
            offset_kernel_size: 8,
            offset_ramdisk_size: 12,
            offset_second_size: 0,
            offset_page_size: 0,
            offset_header_version: 40,
            offset_os_version: 16,
            offset_extra_size: 0,
            offset_recovery_dtbo_size: 0,
            offset_recovery_dtbo_offset: 0,
            offset_header_size: 20,
            offset_dtb_size: 0,
            offset_signature_size: 0,
            offset_vendor_ramdisk_table_size: 0,
            offset_vendor_ramdisk_table_entry_num: 0,
            offset_vendor_ramdisk_table_entry_size: 0,
            offset_bootconfig_size: 0,
            offset_name: 0,
            size_name: 0,
            offset_cmdline: 44,
            size_cmdline: 1536,
            offset_id: 0,
            size_id: 0,
            offset_extra_cmdline: 0,
            size_extra_cmdline: 0,
            total_size: 1580,
        },
        LayoutKind::BootV4 => BootHeaderLayout {
            offset_kernel_size: 8,
            offset_ramdisk_size: 12,
            offset_second_size: 0,
            offset_page_size: 0,
            offset_header_version: 40,
            offset_os_version: 16,
            offset_extra_size: 0,
            offset_recovery_dtbo_size: 0,
            offset_recovery_dtbo_offset: 0,
            offset_header_size: 20,
            offset_dtb_size: 0,
            offset_signature_size: 1580,
            offset_vendor_ramdisk_table_size: 0,
            offset_vendor_ramdisk_table_entry_num: 0,
            offset_vendor_ramdisk_table_entry_size: 0,
            offset_bootconfig_size: 0,
            offset_name: 0,
            size_name: 0,
            offset_cmdline: 44,
            size_cmdline: 1536,
            offset_id: 0,
            size_id: 0,
            offset_extra_cmdline: 0,
            size_extra_cmdline: 0,
            total_size: 1584,
        },
        LayoutKind::VendorV3 => BootHeaderLayout {
            offset_kernel_size: 0,
            offset_ramdisk_size: 24,
            offset_second_size: 0,
            offset_page_size: 12,
            offset_header_version: 8,
            offset_os_version: 0,
            offset_extra_size: 0,
            offset_recovery_dtbo_size: 0,
            offset_recovery_dtbo_offset: 0,
            offset_header_size: 2096,
            offset_dtb_size: 2100,
            offset_signature_size: 0,
            offset_vendor_ramdisk_table_size: 0,
            offset_vendor_ramdisk_table_entry_num: 0,
            offset_vendor_ramdisk_table_entry_size: 0,
            offset_bootconfig_size: 0,
            offset_name: 2080,
            size_name: 16,
            offset_cmdline: 28,
            size_cmdline: 2048,
            offset_id: 0,
            size_id: 0,
            offset_extra_cmdline: 0,
            size_extra_cmdline: 0,
            total_size: 2112,
        },
        LayoutKind::VendorV4 => BootHeaderLayout {
            offset_kernel_size: 0,
            offset_ramdisk_size: 24,
            offset_second_size: 0,
            offset_page_size: 12,
            offset_header_version: 8,
            offset_os_version: 0,
            offset_extra_size: 0,
            offset_recovery_dtbo_size: 0,
            offset_recovery_dtbo_offset: 0,
            offset_header_size: 2096,
            offset_dtb_size: 2100,
            offset_signature_size: 0,
            offset_vendor_ramdisk_table_size: 2112,
            offset_vendor_ramdisk_table_entry_num: 2116,
            offset_vendor_ramdisk_table_entry_size: 2120,
            offset_bootconfig_size: 2124,
            offset_name: 2080,
            size_name: 16,
            offset_cmdline: 28,
            size_cmdline: 2048,
            offset_id: 0,
            size_id: 0,
            offset_extra_cmdline: 0,
            size_extra_cmdline: 0,
            total_size: 2128,
        },
        LayoutKind::Pxa => BootHeaderLayout {
            offset_kernel_size: 8,
            offset_ramdisk_size: 16,
            offset_second_size: 24,
            offset_page_size: 44,
            offset_header_version: 0,
            offset_os_version: 0,
            offset_extra_size: 32,
            offset_recovery_dtbo_size: 0,
            offset_recovery_dtbo_offset: 0,
            offset_header_size: 0,
            offset_dtb_size: 0,
            offset_signature_size: 0,
            offset_vendor_ramdisk_table_size: 0,
            offset_vendor_ramdisk_table_entry_num: 0,
            offset_vendor_ramdisk_table_entry_size: 0,
            offset_bootconfig_size: 0,
            offset_name: 48,
            size_name: 24,
            offset_cmdline: 72,
            size_cmdline: 512,
            offset_id: 584,
            size_id: 32,
            offset_extra_cmdline: 616,
            size_extra_cmdline: 1024,
            total_size: 1640,
        },
    }
}

/// The field offsets of a header format.
pub fn layout_of(kind: LayoutKind) -> (r: BootHeaderLayout)
    ensures
        r == spec_layout(kind),
        layout_wf(r),
{
    match kind {
        LayoutKind::BootV0 => BootHeaderLayout {
            offset_kernel_size: 8,
            offset_ramdisk_size: 16,
            offset_second_size: 24,
            offset_page_size: 36,
            offset_header_version: 40,
            offset_os_version: 44,
            offset_extra_size: 0,
            offset_recovery_dtbo_size: 0,
            offset_recovery_dtbo_offset: 0,
            offset_header_size: 0,
            offset_dtb_size: 0,
            offset_signature_size: 0,
            offset_vendor_ramdisk_table_size: 0,
            offset_vendor_ramdisk_table_entry_num: 0,
            offset_vendor_ramdisk_table_entry_size: 0,
            offset_bootconfig_size: 0,
            offset_name: 48,
            size_name: 16,
            offset_cmdline: 64,
            size_cmdline: 512,
            offset_id: 576,
            size_id: 32,
            offset_extra_cmdline: 608,
            size_extra_cmdline: 1024,
            total_size: 1632,
        },
        LayoutKind::BootV1 => BootHeaderLayout {
            offset_kernel_size: 8,
            offset_ramdisk_size: 16,
            offset_second_size: 24,
            offset_page_size: 36,
            offset_header_version: 40,
            offset_os_version: 44,
            offset_extra_size: 0,
            offset_recovery_dtbo_size: 1632,
            offset_recovery_dtbo_offset: 1636,
            offset_header_size: 1644,
            offset_dtb_size: 0,
            offset_signature_size: 0,
            offset_vendor_ramdisk_table_size: 0,
            offset_vendor_ramdisk_table_entry_num: 0,
            offset_vendor_ramdisk_table_entry_size: 0,
            offset_bootconfig_size: 0,
            offset_name: 48,
            size_name: 16,
            offset_cmdline: 64,
            size_cmdline: 512,
            offset_id: 576,
            size_id: 32,
            offset_extra_cmdline: 608,
            size_extra_cmdline: 1024,
            total_size: 1648,
        },
        LayoutKind::BootV2 => BootHeaderLayout {
            offset_kernel_size: 8,
            offset_ramdisk_size: 16,
            offset_second_size: 24,
            offset_page_size: 36,
            offset_header_version: 40,
            offset_os_version: 44,
            offset_extra_size: 0,
            offset_recovery_dtbo_size: 1632,
            offset_recovery_dtbo_offset: 1636,
            offset_header_size: 1644,
            offset_dtb_size: 1648,
            offset_signature_size: 0,
            offset_vendor_ramdisk_table_size: 0,
            offset_vendor_ramdisk_table_entry_num: 0,
            offset_vendor_ramdisk_table_entry_size: 0,
            offset_bootconfig_size: 0,
            offset_name: 48,
            size_name: 16,
            offset_cmdline: 64,
            size_cmdline: 512,
            offset_id: 576,
            size_id: 32,
            offset_extra_cmdline: 608,
            size_extra_cmdline: 1024,
            total_size: 1660,
        },
        LayoutKind::BootV3 => BootHeaderLayout {
            offset_kernel_size: 8,
            offset_ramdisk_size: 12,
            offset_second_size: 0,
            offset_page_size: 0,
            offset_header_version: 40,
            offset_os_version: 16,
            offset_extra_size: 0,
            offset_recovery_dtbo_size: 0,
            offset_recovery_dtbo_offset: 0,
            offset_header_size: 20,
            offset_dtb_size: 0,
            offset_signature_size: 0,
            offset_vendor_ramdisk_table_size: 0,
            offset_vendor_ramdisk_table_entry_num: 0,
            offset_vendor_ramdisk_table_entry_size: 0,
            offset_bootconfig_size: 0,
            offset_name: 0,
            size_name: 0,
            offset_cmdline: 44,
            size_cmdline: 1536,
            offset_id: 0,
            size_id: 0,
            offset_extra_cmdline: 0,
            size_extra_cmdline: 0,
            total_size: 1580,
        },
        LayoutKind::BootV4 => BootHeaderLayout {
            offset_kernel_size: 8,
            offset_ramdisk_size: 12,
            offset_second_size: 0,
            offset_page_size: 0,
            offset_header_version: 40,
            offset_os_version: 16,
            offset_extra_size: 0,
            offset_recovery_dtbo_size: 0,
            offset_recovery_dtbo_offset: 0,
            offset_header_size: 20,
            offset_dtb_size: 0,
            offset_signature_size: 1580,
            offset_vendor_ramdisk_table_size: 0,
            offset_vendor_ramdisk_table_entry_num: 0,
            offset_vendor_ramdisk_table_entry_size: 0,
            offset_bootconfig_size: 0,
            offset_name: 0,
            size_name: 0,
            offset_cmdline: 44,
            size_cmdline: 1536,
            offset_id: 0,
            size_id: 0,
            offset_extra_cmdline: 0,
            size_extra_cmdline: 0,
            total_size: 1584,
        },
        LayoutKind::VendorV3 => BootHeaderLayout {
            offset_kernel_size: 0,
            offset_ramdisk_size: 24,
            offset_second_size: 0,
            offset_page_size: 12,
            offset_header_version: 8,
            offset_os_version: 0,
            offset_extra_size: 0,
            offset_recovery_dtbo_size: 0,
            offset_recovery_dtbo_offset: 0,
            offset_header_size: 2096,
            offset_dtb_size: 2100,
            offset_signature_size: 0,
            offset_vendor_ramdisk_table_size: 0,
            offset_vendor_ramdisk_table_entry_num: 0,
            offset_vendor_ramdisk_table_entry_size: 0,
            offset_bootconfig_size: 0,
            offset_name: 2080,
            size_name: 16,
            offset_cmdline: 28,
            size_cmdline: 2048,
            offset_id: 0,
            size_id: 0,
            offset_extra_cmdline: 0,
            size_extra_cmdline: 0,
            total_size: 2112,
        },
        LayoutKind::VendorV4 => BootHeaderLayout {
            offset_kernel_size: 0,
            offset_ramdisk_size: 24,
            offset_second_size: 0,
            offset_page_size: 12,
            offset_header_version: 8,
            offset_os_version: 0,
            offset_extra_size: 0,
            offset_recovery_dtbo_size: 0,
            offset_recovery_dtbo_offset: 0,
            offset_header_size: 2096,
            offset_dtb_size: 2100,
            offset_signature_size: 0,
            offset_vendor_ramdisk_table_size: 2112,
            offset_vendor_ramdisk_table_entry_num: 2116,
            offset_vendor_ramdisk_table_entry_size: 2120,
            offset_bootconfig_size: 2124,
            offset_name: 2080,
            size_name: 16,
            offset_cmdline: 28,
            size_cmdline: 2048,
            offset_id: 0,
            size_id: 0,
            offset_extra_cmdline: 0,
            size_extra_cmdline: 0,
            total_size: 2128,
        },
        LayoutKind::Pxa => BootHeaderLayout {
            offset_kernel_size: 8,
            offset_ramdisk_size: 16,
            offset_second_size: 24,
            offset_page_size: 44,
            offset_header_version: 0,
            offset_os_version: 0,
            offset_extra_size: 32,
            offset_recovery_dtbo_size: 0,
            offset_recovery_dtbo_offset: 0,
            offset_header_size: 0,
            offset_dtb_size: 0,
            offset_signature_size: 0,
            offset_vendor_ramdisk_table_size: 0,
            offset_vendor_ramdisk_table_entry_num: 0,
            offset_vendor_ramdisk_table_entry_size: 0,
            offset_bootconfig_size: 0,
            offset_name: 48,
            size_name: 24,
            offset_cmdline: 72,
            size_cmdline: 512,
            offset_id: 584,
            size_id: 32,
            offset_extra_cmdline: 616,
            size_extra_cmdline: 1024,
            total_size: 1640,
        },
    }
}

/// Every field of the layout lies inside the header.
pub open spec fn layout_wf(l: BootHeaderLayout) -> bool {
    &&& 8 <= l.total_size <= 4096
    &&& l.offset_kernel_size + 4 <= l.total_size
    &&& l.offset_ramdisk_size + 4 <= l.total_size
    &&& l.offset_second_size + 4 <= l.total_size
    &&& l.offset_page_size + 4 <= l.total_size
    &&& l.offset_header_version + 4 <= l.total_size
    &&& l.offset_os_version + 4 <= l.total_size
    &&& l.offset_extra_size + 4 <= l.total_size
    &&& l.offset_recovery_dtbo_size + 4 <= l.total_size
    &&& l.offset_recovery_dtbo_offset + 8 <= l.total_size
    &&& l.offset_header_size + 4 <= l.total_size
    &&& l.offset_dtb_size + 4 <= l.total_size
    &&& l.offset_signature_size + 4 <= l.total_size
    &&& l.offset_vendor_ramdisk_table_size + 4 <= l.total_size
    &&& l.offset_vendor_ramdisk_table_entry_num + 4 <= l.total_size
    &&& l.offset_vendor_ramdisk_table_entry_size + 4 <= l.total_size
    &&& l.offset_bootconfig_size + 4 <= l.total_size
    &&& l.offset_name + l.size_name <= l.total_size
    &&& l.offset_cmdline + l.size_cmdline <= l.total_size
    &&& l.offset_id + l.size_id <= l.total_size
    &&& l.offset_extra_cmdline + l.size_extra_cmdline <= l.total_size
}

} // verus!
