//! Event types and codes of the Linux input protocol.

use vstd::prelude::*;

verus! {

pub const EV_SYN: u16 = 0x00;

pub const EV_KEY: u16 = 0x01;

pub const EV_ABS: u16 = 0x03;

pub const SYN_REPORT: u16 = 0x00;

pub const ABS_MT_SLOT: u16 = 0x2f;

pub const ABS_MT_TOUCH_MAJOR: u16 = 0x30;

pub const ABS_MT_POSITION_X: u16 = 0x35;

pub const ABS_MT_POSITION_Y: u16 = 0x36;

pub const ABS_MT_TRACKING_ID: u16 = 0x39;

/// The tracking identifier of a slot without a contact.
pub const NO_CONTACT: i32 = -1;

pub const ABS_MT_TOOL_Y: u16 = 0x3d;

pub const BTN_LEFT: u16 = 0x110;

pub const BTN_TOOL_FINGER: u16 = 0x145;

pub const BTN_TOOL_QUINTTAP: u16 = 0x148;

pub const BTN_TOUCH: u16 = 0x14a;

pub const BTN_TOOL_DOUBLETAP: u16 = 0x14d;

pub const BTN_TOOL_TRIPLETAP: u16 = 0x14e;

pub const BTN_TOOL_QUADTAP: u16 = 0x14f;

pub const INPUT_PROP_POINTER: u16 = 0x00;

pub const INPUT_PROP_DIRECT: u16 = 0x01;

} // verus!
