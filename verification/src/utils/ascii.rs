//! The ASCII bytes that number literals are made of.

use vstd::prelude::*;

verus! {

pub const ZERO: u8 = 0x30;

pub const NINE: u8 = 0x39;

pub const PLUS: u8 = 0x2b;

pub const MINUS: u8 = 0x2d;

pub const POINT: u8 = 0x2e;

pub const UPPER_A: u8 = 0x41;

pub const UPPER_E: u8 = 0x45;

pub const UPPER_N: u8 = 0x4e;

pub const UPPER_Z: u8 = 0x5a;

pub const LOWER_A: u8 = 0x61;

pub const LOWER_E: u8 = 0x65;

pub const LOWER_F: u8 = 0x66;

pub const LOWER_I: u8 = 0x69;

pub const LOWER_N: u8 = 0x6e;

pub const LOWER_T: u8 = 0x74;

pub const LOWER_Y: u8 = 0x79;

pub const LOWER_Z: u8 = 0x7a;

} // verus!
