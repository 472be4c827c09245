use evdev::{AbsoluteAxisCode, EventType, InputEvent, KeyCode, PropType, SynchronizationCode};
use holdtap::codes;
use holdtap::event::Event;

#[test]
fn codes_are_those_of_the_input_protocol() {
    assert_eq!(codes::EV_SYN, EventType::SYNCHRONIZATION.0);
    assert_eq!(codes::EV_KEY, EventType::KEY.0);
    assert_eq!(codes::EV_ABS, EventType::ABSOLUTE.0);
    assert_eq!(codes::SYN_REPORT, SynchronizationCode::SYN_REPORT.0);
    assert_eq!(codes::ABS_MT_SLOT, AbsoluteAxisCode::ABS_MT_SLOT.0);
    assert_eq!(codes::ABS_MT_TOUCH_MAJOR, AbsoluteAxisCode::ABS_MT_TOUCH_MAJOR.0);
    assert_eq!(codes::ABS_MT_POSITION_X, AbsoluteAxisCode::ABS_MT_POSITION_X.0);
    assert_eq!(codes::ABS_MT_POSITION_Y, AbsoluteAxisCode::ABS_MT_POSITION_Y.0);
    assert_eq!(codes::ABS_MT_TRACKING_ID, AbsoluteAxisCode::ABS_MT_TRACKING_ID.0);
    assert_eq!(codes::ABS_MT_TOOL_Y, AbsoluteAxisCode::ABS_MT_TOOL_Y.0);
    assert_eq!(codes::BTN_LEFT, KeyCode::BTN_LEFT.0);
    assert_eq!(codes::BTN_TOUCH, KeyCode::BTN_TOUCH.0);
    assert_eq!(codes::BTN_TOOL_FINGER, KeyCode::BTN_TOOL_FINGER.0);
    assert_eq!(codes::BTN_TOOL_DOUBLETAP, KeyCode::BTN_TOOL_DOUBLETAP.0);
    assert_eq!(codes::BTN_TOOL_TRIPLETAP, KeyCode::BTN_TOOL_TRIPLETAP.0);
    assert_eq!(codes::BTN_TOOL_QUADTAP, KeyCode::BTN_TOOL_QUADTAP.0);
    assert_eq!(codes::BTN_TOOL_QUINTTAP, KeyCode::BTN_TOOL_QUINTTAP.0);
    assert_eq!(codes::INPUT_PROP_POINTER, PropType::POINTER.0);
    assert_eq!(codes::INPUT_PROP_DIRECT, PropType::DIRECT.0);
}

#[test]
fn made_up_events_are_those_of_the_device_library() {
    let theirs = InputEvent::new(EventType::ABSOLUTE.0, AbsoluteAxisCode::ABS_MT_SLOT.0, 3);
    let raw: &libc::input_event = theirs.as_ref();
    assert_eq!(
        Event::new(codes::EV_ABS, codes::ABS_MT_SLOT, 3),
        Event {
            seconds: raw.time.tv_sec,
            micros: raw.time.tv_usec,
            kind: raw.type_,
            code: raw.code,
            value: raw.value,
        }
    );
}
