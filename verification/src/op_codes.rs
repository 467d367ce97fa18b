//! The byte values of the binary format, each assigned in exactly one place.

use vstd::prelude::*;

pub mod section;

verus! {

/// The four magic bytes `\0asm` that open every module.
pub const MAGIC_0: u8 = 0x00;

pub const MAGIC_1: u8 = 0x61;

pub const MAGIC_2: u8 = 0x73;

pub const MAGIC_3: u8 = 0x6d;

/// The only format version there is.
pub const VERSION: u32 = 1;

/// Widest count, index or length that a single byte of the format can carry.
pub const MAX_COUNT: usize = 255;

/// Marker that opens a function signature in the type section.
pub const FUNC_TYPE: u8 = 0x60;

/// Value-type byte of `I32`.
pub const TYPE_I32: u8 = 0x7f;

/// Value-type byte of `I64`.
pub const TYPE_I64: u8 = 0x7e;

/// Byte that follows an export's name and carries no information.
pub const EXPORT_RESERVED: u8 = 0x00;

/// Export-kind byte of a function export.
pub const EXPORT_FUNC: u8 = 0x00;

/// Tag of `LocalGet`; one index byte follows.
pub const LOCAL_GET: u8 = 0x20;

/// Tag of `I32Add`.
pub const I32_ADD: u8 = 0x6a;

/// Marker that ends an instruction stream.
pub const END: u8 = 0x0b;

} // verus!
