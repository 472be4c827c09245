use std::collections::BTreeMap;

use evdev::AbsoluteAxisCode;
use holdtap::codes::{EV_ABS, EV_KEY};
use holdtap::event::{is_mt_attribute, is_tool_count, tool_count_events, Event};
use holdtap::frame::{
    queue_event, reset_after_all_fingers_lifted, restore_contact, take_report, SlotState,
};
use holdtap::recognizer::{Config, Recognizer};

fn abs(axis: AbsoluteAxisCode, value: i32) -> Event {
    Event::new(EV_ABS, axis.0, value)
}

fn recognizer() -> Recognizer {
    Recognizer::new(12, &Config::default(), |length_mm, units_per_mm| {
        (length_mm.parse::<f64>().unwrap() * f64::from(units_per_mm)).round() as i64
    })
}

fn contacts() -> BTreeMap<u16, SlotState> {
    BTreeMap::from([(
        1,
        SlotState {
            axes: BTreeMap::from([
                (AbsoluteAxisCode::ABS_MT_TRACKING_ID.0, 11),
                (AbsoluteAxisCode::ABS_MT_POSITION_X.0, 400),
                (AbsoluteAxisCode::ABS_MT_POSITION_Y.0, 500),
                (AbsoluteAxisCode::ABS_MT_PRESSURE.0, 30),
                (AbsoluteAxisCode::ABS_MT_TOUCH_MAJOR.0, 8),
            ]),
        },
    )])
}

fn replay(events: &[Event]) -> Vec<(i32, u16, i32)> {
    let mut slot = 0;
    let mut result = Vec::new();
    for event in events {
        if event.kind == EV_ABS {
            if event.code == AbsoluteAxisCode::ABS_MT_SLOT.0 {
                slot = event.value;
            } else if is_mt_attribute(event.code) {
                result.push((slot, event.code, event.value));
            }
        }
    }
    result
}

#[test]
fn timeout_restore_does_not_redirect_primary_motion_or_release() {
    let mut frame = Vec::new();
    restore_contact(&mut frame, &contacts(), 1);
    // The physical device still has slot 0 selected and omits ABS_MT_SLOT.
    queue_event(&mut frame, 0, abs(AbsoluteAxisCode::ABS_MT_POSITION_X, 130));
    queue_event(&mut frame, 0, abs(AbsoluteAxisCode::ABS_MT_TRACKING_ID, -1));
    let events = replay(&frame);
    assert_eq!(
        &events[events.len() - 2..],
        &[
            (0, AbsoluteAxisCode::ABS_MT_POSITION_X.0, 130),
            (0, AbsoluteAxisCode::ABS_MT_TRACKING_ID.0, -1),
        ]
    );
}

#[test]
fn restore_preserves_buffered_order_and_third_finger_slot() {
    let mut frame = Vec::new();
    queue_event(&mut frame, 0, abs(AbsoluteAxisCode::ABS_MT_POSITION_X, 130));
    restore_contact(&mut frame, &contacts(), 1);
    queue_event(&mut frame, 2, abs(AbsoluteAxisCode::ABS_MT_TRACKING_ID, 12));
    let events = replay(&frame);
    assert_eq!(
        events.first(),
        Some(&(0, AbsoluteAxisCode::ABS_MT_POSITION_X.0, 130))
    );
    assert_eq!(
        events.last(),
        Some(&(2, AbsoluteAxisCode::ABS_MT_TRACKING_ID.0, 12))
    );
    assert!(events.contains(&(1, AbsoluteAxisCode::ABS_MT_TRACKING_ID.0, 11)));
}

#[test]
fn restore_includes_cached_contact_shape_and_pressure() {
    let mut frame = Vec::new();
    restore_contact(&mut frame, &contacts(), 1);
    let events = replay(&frame);
    assert!(events.contains(&(1, AbsoluteAxisCode::ABS_MT_PRESSURE.0, 30)));
    assert!(events.contains(&(1, AbsoluteAxisCode::ABS_MT_TOUCH_MAJOR.0, 8)));
    assert!(events.contains(&(1, AbsoluteAxisCode::ABS_MT_POSITION_Y.0, 500)));
}

#[test]
fn all_fingers_up_releases_stale_slots_and_resets_recognizer() {
    let mut frame = Vec::new();
    let mut slots = contacts();
    let mut recognizer = recognizer();
    recognizer.touch_down(0, 10, 0);
    recognizer.touch_down(1, 11, 10_000_000);

    reset_after_all_fingers_lifted(&mut frame, &mut slots, &mut recognizer);

    assert!(replay(&frame).contains(&(1, AbsoluteAxisCode::ABS_MT_TRACKING_ID.0, -1)));
    assert!(slots.is_empty());
    assert_eq!(recognizer.contact_count(), 0);
    assert_eq!(recognizer.pending_slot(), None);
}

#[test]
fn stale_contacts_are_counted_by_whoever_knows_more() {
    let mut recognizer = recognizer();
    recognizer.touch_down(0, 10, 0);
    recognizer.touch_down(1, 11, 10_000_000);
    let mut frame = Vec::new();
    assert_eq!(
        reset_after_all_fingers_lifted(&mut frame, &mut contacts(), &mut recognizer),
        2
    );
    assert_eq!(
        reset_after_all_fingers_lifted(&mut frame, &mut contacts(), &mut recognizer),
        1
    );
    assert_eq!(
        reset_after_all_fingers_lifted(&mut frame, &mut BTreeMap::new(), &mut recognizer),
        0
    );
}

#[test]
fn restored_events_in_full() {
    let mut frame = Vec::new();
    restore_contact(&mut frame, &contacts(), 1);
    let mut expected = Vec::new();
    for (code, value) in [(0x39, 11), (0x30, 8), (0x35, 400), (0x36, 500), (0x3a, 30)] {
        expected.push(Event::new(3, 0x2f, 1));
        expected.push(Event::new(3, code, value));
    }
    assert_eq!(frame, expected);
}

#[test]
fn nothing_is_restored_without_a_finger() {
    let mut frame = Vec::new();
    restore_contact(&mut frame, &contacts(), 0);
    let mut slots = contacts();
    slots.insert(2, SlotState::default());
    restore_contact(&mut frame, &slots, 2);
    slots.insert(
        3,
        SlotState {
            axes: BTreeMap::from([(AbsoluteAxisCode::ABS_MT_TRACKING_ID.0, -1)]),
        },
    );
    restore_contact(&mut frame, &slots, 3);
    assert!(frame.is_empty());
}

#[test]
fn only_attributes_are_preceded_by_their_slot() {
    let mut frame = Vec::new();
    let x = Event {
        seconds: 17,
        micros: 3,
        kind: EV_ABS,
        code: 0x00,
        value: 5,
    };
    let slotted = Event { code: 0x35, ..x };
    queue_event(&mut frame, 4, x);
    queue_event(&mut frame, 4, Event::new(EV_KEY, 0x35, 1));
    queue_event(&mut frame, 4, slotted);
    assert_eq!(
        frame,
        vec![x, Event::new(EV_KEY, 0x35, 1), Event::new(EV_ABS, 0x2f, 4), slotted]
    );
}

#[test]
fn attribute_range() {
    assert!(!is_mt_attribute(0x2f));
    assert!(is_mt_attribute(0x30));
    assert!(is_mt_attribute(0x3d));
    assert!(!is_mt_attribute(0x3e));
}

#[test]
fn finger_counts() {
    assert_eq!(
        tool_count_events(0),
        [(0x145, 0), (0x14d, 0), (0x14e, 0), (0x14f, 0), (0x148, 0)]
    );
    assert_eq!(
        tool_count_events(1),
        [(0x145, 1), (0x14d, 0), (0x14e, 0), (0x14f, 0), (0x148, 0)]
    );
    assert_eq!(
        tool_count_events(4),
        [(0x145, 0), (0x14d, 0), (0x14e, 0), (0x14f, 1), (0x148, 0)]
    );
    assert_eq!(
        tool_count_events(7),
        [(0x145, 0), (0x14d, 0), (0x14e, 0), (0x14f, 0), (0x148, 1)]
    );
    for code in [0x145, 0x148, 0x14d, 0x14e, 0x14f] {
        assert!(is_tool_count(Event::new(EV_KEY, code, 1)));
        assert!(!is_tool_count(Event::new(EV_ABS, code, 1)));
    }
    assert!(!is_tool_count(Event::new(EV_KEY, 0x14a, 1)));
}

#[test]
fn report_ends_in_the_finger_count() {
    let mut recognizer = recognizer();
    recognizer.touch_down(0, 10, 0);
    recognizer.touch_down(1, 11, 0);
    let mut frame = vec![Event::new(EV_KEY, 0x14a, 1)];
    let report = take_report(&mut frame, &recognizer);
    assert!(frame.is_empty());
    assert_eq!(
        report,
        vec![
            Event::new(EV_KEY, 0x14a, 1),
            Event::new(EV_KEY, 0x145, 0),
            Event::new(EV_KEY, 0x14d, 1),
            Event::new(EV_KEY, 0x14e, 0),
            Event::new(EV_KEY, 0x14f, 0),
            Event::new(EV_KEY, 0x148, 0),
        ]
    );
}
