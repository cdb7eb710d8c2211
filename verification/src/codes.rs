//! The numbers that the kernel gives to absolute axes.

use vstd::prelude::*;

verus! {

/// The type of events about absolute axes.
pub const EV_ABS: u16 = 0x03;

pub const ABS_X: u16 = 0x00;

pub const ABS_Y: u16 = 0x01;

/// The slot that the following multitouch events belong to.
pub const ABS_MT_SLOT: u16 = 0x2f;

pub const ABS_MT_TOUCH_MAJOR: u16 = 0x30;

pub const ABS_MT_TOUCH_MINOR: u16 = 0x31;

pub const ABS_MT_POSITION_X: u16 = 0x35;

pub const ABS_MT_POSITION_Y: u16 = 0x36;

/// The identity of the touch in a slot, or a negative number when the touch ends.
pub const ABS_MT_TRACKING_ID: u16 = 0x39;

pub const ABS_MT_PRESSURE: u16 = 0x3a;

} // verus!
