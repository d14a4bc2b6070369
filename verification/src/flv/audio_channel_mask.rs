//! Speaker positions as bits of a channel mask.

use vstd::prelude::*;

verus! {

pub const FRONT_LEFT: u32 = 0x000001;

pub const FRONT_RIGHT: u32 = 0x000002;

pub const FRONT_CENTER: u32 = 0x000004;

pub const LOW_FREQUENCY1: u32 = 0x000008;

pub const BACK_LEFT: u32 = 0x000010;

pub const BACK_RIGHT: u32 = 0x000020;

pub const FRONT_LEFT_CENTER: u32 = 0x000040;

pub const FRONT_RIGHT_CENTER: u32 = 0x000080;

pub const BACK_CENTER: u32 = 0x000100;

pub const SIDE_LEFT: u32 = 0x000200;

pub const SIDE_RIGHT: u32 = 0x000400;

pub const TOP_CENTER: u32 = 0x000800;

pub const TOP_FRONT_LEFT: u32 = 0x001000;

pub const TOP_FRONT_CENTER: u32 = 0x002000;

pub const TOP_FRONT_RIGHT: u32 = 0x004000;

pub const TOP_BACK_LEFT: u32 = 0x008000;

pub const TOP_BACK_CENTER: u32 = 0x010000;

pub const TOP_BACK_RIGHT: u32 = 0x020000;

pub const LOW_FREQUENCY2: u32 = 0x040000;

pub const TOP_SIDE_LEFT: u32 = 0x080000;

pub const TOP_SIDE_RIGHT: u32 = 0x100000;

pub const BOTTOM_FRONT_CENTER: u32 = 0x200000;

pub const BOTTOM_FRONT_LEFT: u32 = 0x400000;

pub const BOTTOM_FRONT_RIGHT: u32 = 0x800000;

} // verus!
