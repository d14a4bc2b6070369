//! Speaker positions by channel number.

use vstd::prelude::*;

verus! {

pub const FRONT_LEFT: u8 = 0;

pub const FRONT_RIGHT: u8 = 1;

pub const FRONT_CENTER: u8 = 2;

pub const LOW_FREQUENCY1: u8 = 3;

pub const BACK_LEFT: u8 = 4;

pub const BACK_RIGHT: u8 = 5;

pub const FRONT_LEFT_CENTER: u8 = 6;

pub const FRONT_RIGHT_CENTER: u8 = 7;

pub const BACK_CENTER: u8 = 8;

pub const SIDE_LEFT: u8 = 9;

pub const SIDE_RIGHT: u8 = 10;

pub const TOP_CENTER: u8 = 11;

pub const TOP_FRONT_LEFT: u8 = 12;

pub const TOP_FRONT_CENTER: u8 = 13;

pub const TOP_FRONT_RIGHT: u8 = 14;

pub const TOP_BACK_LEFT: u8 = 15;

pub const TOP_BACK_CENTER: u8 = 16;

pub const TOP_BACK_RIGHT: u8 = 17;

pub const LOW_FREQUENCY2: u8 = 18;

pub const TOP_SIDE_LEFT: u8 = 19;

pub const TOP_SIDE_RIGHT: u8 = 20;

pub const BOTTOM_FRONT_CENTER: u8 = 21;

pub const BOTTOM_FRONT_LEFT: u8 = 22;

pub const BOTTOM_FRONT_RIGHT: u8 = 23;

pub const UNUSED: u8 = 0xfe;

pub const UNKNOWN: u8 = 0xff;

} // verus!
