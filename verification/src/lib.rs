//! Android boot image manipulation: parsing, patching and repacking boot and
//! vendor boot images, cpio ramdisks, device trees and compressed payloads.
use vstd::prelude::*;

pub mod bytes;
pub mod compress;
pub mod constants;
pub mod cpio;
pub mod display;
pub mod dtb;
pub mod hexpatch;
pub mod layouts;
pub mod numfmt;
pub mod order;
pub mod parser;
pub mod patcher;
pub mod sign;
pub mod sorted_map;
pub mod text;
pub mod utils;
