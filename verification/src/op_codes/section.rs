//! Section tags, in the order in which the sections must appear.

use vstd::prelude::*;

verus! {

pub const TYPE: u8 = 0x01;

pub const FUNC: u8 = 0x03;

pub const EXPORT: u8 = 0x07;

pub const CODE: u8 = 0x0a;

} // verus!
