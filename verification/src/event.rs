//! Input events, and what the filter needs to know of each.

use vstd::prelude::*;

use crate::codes::{
    ABS_MT_SLOT, ABS_MT_TOOL_Y, ABS_MT_TOUCH_MAJOR, BTN_TOOL_DOUBLETAP, BTN_TOOL_FINGER,
    BTN_TOOL_QUADTAP, BTN_TOOL_QUINTTAP, BTN_TOOL_TRIPLETAP, EV_ABS, EV_KEY,
};

verus! {

/// One event of an input device, with the time stamp that it carries.
#[derive(Clone, Copy, Debug, PartialEq, Eq, Structural)]
pub struct Event {
    pub seconds: i64,
    pub micros: i64,
    pub kind: u16,
    pub code: u16,
    pub value: i32,
}

/// `code` names an axis that the multitouch protocol keeps per slot.
pub open spec fn mt_attribute(code: u16) -> bool {
    ABS_MT_TOUCH_MAJOR <= code <= ABS_MT_TOOL_Y
}

impl Event {
    /// An event that the filter makes up: its time stamp is zero.
    pub open spec fn made(kind: u16, code: u16, value: i32) -> Event {
        Event { seconds: 0, micros: 0, kind, code, value }
    }

    /// Selects `slot` for the attributes that follow.
    pub open spec fn selecting(slot: u16) -> Event {
        Event::made(EV_ABS, ABS_MT_SLOT, slot as i32)
    }

    /// The event sets an axis of the selected slot.
    pub open spec fn sets_attribute(self) -> bool {
        self.kind == EV_ABS && mt_attribute(self.code)
    }

    /// The event selects a slot.
    pub open spec fn selects_slot(self) -> bool {
        self.kind == EV_ABS && self.code == ABS_MT_SLOT
    }

    /// The event says how many fingers are down.
    pub open spec fn counts_fingers(self) -> bool {
        self.kind == EV_KEY && (self.code == BTN_TOOL_FINGER || self.code == BTN_TOOL_DOUBLETAP
            || self.code == BTN_TOOL_TRIPLETAP || self.code == BTN_TOOL_QUADTAP || self.code
            == BTN_TOOL_QUINTTAP)
    }

    /// An event with a zero time stamp.
    pub fn new(kind: u16, code: u16, value: i32) -> (r: Event)
        ensures
            r == Event::made(kind, code, value),
    {
        Event { seconds: 0, micros: 0, kind, code, value }
    }
}

/// Slots keep the values of these axes across frames and contact lifetimes.
pub fn is_mt_attribute(code: u16) -> (r: bool)
    ensures
        r == mt_attribute(code),
        r <==> 0x30 <= code && code <= 0x3d,
{
    ABS_MT_TOUCH_MAJOR <= code && code <= ABS_MT_TOOL_Y
}

/// Whether the event says how many fingers are down.
pub fn is_tool_count(event: Event) -> (r: bool)
    ensures
        r == event.counts_fingers(),
        r <==> event.kind == 1 && (event.code == 0x145 || event.code == 0x148 || event.code == 0x14d
            || event.code == 0x14e || event.code == 0x14f),
{
    event.kind == EV_KEY && (event.code == BTN_TOOL_FINGER || event.code == BTN_TOOL_QUINTTAP
        || event.code == BTN_TOOL_DOUBLETAP || event.code == BTN_TOOL_TRIPLETAP || event.code
        == BTN_TOOL_QUADTAP)
}

/// The value of a finger-count key: 1 if it is the one to be down.
pub open spec fn pressed(down: bool) -> i32 {
    if down {
        1
    } else {
        0
    }
}

/// The codes and values of the keys that say that `count` fingers are down.
pub open spec fn tool_counts(count: int) -> Seq<(u16, i32)> {
    seq![
        (BTN_TOOL_FINGER, pressed(count == 1)),
        (BTN_TOOL_DOUBLETAP, pressed(count == 2)),
        (BTN_TOOL_TRIPLETAP, pressed(count == 3)),
        (BTN_TOOL_QUADTAP, pressed(count == 4)),
        (BTN_TOOL_QUINTTAP, pressed(count >= 5)),
    ]
}

fn press(down: bool) -> (r: i32)
    ensures
        r == pressed(down),
{
    if down {
        1
    } else {
        0
    }
}

/// The codes and values of the keys that say that `count` fingers are down.
pub fn tool_count_events(count: usize) -> (r: [(u16, i32); 5])
    ensures
        r@ == tool_counts(count as int),
{
    [
        (BTN_TOOL_FINGER, press(count == 1)),
        (BTN_TOOL_DOUBLETAP, press(count == 2)),
        (BTN_TOOL_TRIPLETAP, press(count == 3)),
        (BTN_TOOL_QUADTAP, press(count == 4)),
        (BTN_TOOL_QUINTTAP, press(count >= 5)),
    ]
}

} // verus!
