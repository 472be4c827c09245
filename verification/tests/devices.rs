use evdev::{AbsoluteAxisCode, AttributeSet, PropType};
use holdtap::device::{
    accepts_device, context, first_accepted, is_eligible, is_touchpad, touch_resolution,
    virtual_name, Candidate,
};
use holdtap::text::{ends_with, reads};

const TOUCHPAD_AXES: [u16; 6] = [0x00, 0x01, 0x2f, 0x35, 0x36, 0x39];

fn properties(codes: &[u16]) -> AttributeSet<PropType> {
    codes.iter().map(|code| PropType(*code)).collect()
}

fn axes(codes: &[u16]) -> AttributeSet<AbsoluteAxisCode> {
    codes.iter().map(|code| AbsoluteAxisCode(*code)).collect()
}

struct Pad {
    properties: AttributeSet<PropType>,
    axes: AttributeSet<AbsoluteAxisCode>,
}

impl Pad {
    fn new() -> Self {
        Pad {
            properties: properties(&[0, 2]),
            axes: axes(&TOUCHPAD_AXES),
        }
    }

    fn named(&self, name: Option<&str>) -> Candidate<'_> {
        Candidate {
            name: name.map(str::to_string),
            path: Some("/dev/input/event7".to_string()),
            properties: &self.properties,
            axes: Some(&self.axes),
        }
    }
}

fn asked(value: &str) -> Option<String> {
    Some(value.to_string())
}

#[test]
fn touchpads_by_their_capabilities() {
    let all = axes(&TOUCHPAD_AXES);
    assert!(is_touchpad(&properties(&[0]), Some(&all)));
    assert!(!is_touchpad(&properties(&[]), Some(&all)));
    assert!(!is_touchpad(&properties(&[0, 1]), Some(&all)));
    assert!(!is_touchpad(&properties(&[0]), None));
    for missing in [0x2f, 0x35, 0x36, 0x39] {
        let mut rest = axes(&TOUCHPAD_AXES);
        rest.remove(AbsoluteAxisCode(missing));
        assert!(!is_touchpad(&properties(&[0]), Some(&rest)));
    }
}

#[test]
fn any_touchpad_unless_one_is_asked_for() {
    let pad = Pad::new();
    assert!(accepts_device(&pad.named(Some("Pad")), &None));
    assert!(accepts_device(&pad.named(None), &None));
    assert!(accepts_device(&pad.named(Some("Pad")), &asked("Pad")));
    assert!(!accepts_device(&pad.named(Some("Pad")), &asked("pad")));
    assert!(!accepts_device(&pad.named(None), &asked("Pad")));
}

#[test]
fn any_device_at_the_path_that_is_asked_for() {
    let none = properties(&[]);
    let mut mouse = Candidate {
        name: Some("Mouse".to_string()),
        path: Some("/dev/input/event3".to_string()),
        properties: &none,
        axes: None,
    };
    assert!(!accepts_device(&mouse, &None));
    assert!(accepts_device(&mouse, &asked("/dev/input/event3")));
    assert!(accepts_device(&mouse, &asked("/dev//input/./event3/")));
    assert!(!accepts_device(&mouse, &asked("/dev/input/event30")));
    assert!(!accepts_device(&mouse, &asked("dev/input/event3")));
    assert!(!accepts_device(&mouse, &asked("")));
    mouse.path = None;
    assert!(!accepts_device(&mouse, &asked("/dev/input/event3")));
    assert!(is_eligible(&mouse, &asked("/dev/input/event3"), true));
    assert!(!is_eligible(&mouse, &asked("/dev/input/event3"), false));
    assert!(!is_eligible(&mouse, &None, true));
}

#[test]
fn twins_are_never_accepted() {
    let pad = Pad::new();
    for name in [Some("Pad"), None, Some(""), Some("Pad (holdtap)")] {
        let twin = virtual_name(&name.map(str::to_string));
        let candidate = pad.named(Some(twin.as_str()));
        assert!(!accepts_device(&candidate, &None));
        assert!(!accepts_device(&candidate, &asked(twin.as_str())));
        assert!(!accepts_device(&candidate, &asked("/dev/input/event7")));
    }
}

#[test]
fn names_of_twins() {
    assert_eq!(virtual_name(&Some("Pad".to_string())), "Pad (holdtap)");
    assert_eq!(virtual_name(&None), "Touchpad (holdtap)");
}

#[test]
fn resolution_of_the_horizontal_axis() {
    assert_eq!(touch_resolution(&vec![]), 12);
    assert_eq!(touch_resolution(&vec![(0x36, 31)]), 12);
    assert_eq!(touch_resolution(&vec![(0x00, 30), (0x35, 0), (0x36, 31)]), 0);
    assert_eq!(touch_resolution(&vec![(0x35, 40), (0x35, 41)]), 40);
}

#[test]
fn first_accepted_device_is_taken() {
    let pad = Pad::new();
    let candidates = vec![
        pad.named(Some("Pad (holdtap)")),
        pad.named(Some("A")),
        pad.named(Some("B")),
        pad.named(Some("B")),
    ];
    assert_eq!(first_accepted(&candidates, &None), Some(1));
    assert_eq!(first_accepted(&candidates, &asked("B")), Some(2));
    assert_eq!(first_accepted(&candidates, &asked("C")), None);
    assert_eq!(first_accepted(&candidates, &asked("Pad (holdtap)")), None);
    assert_eq!(first_accepted(&vec![], &None), None);
}

#[test]
fn errors_name_their_operation() {
    let error = std::io::Error::new(std::io::ErrorKind::NotFound, "no such file");
    let (kind, text) = context("open /dev/uinput", error.kind(), &error.to_string());
    assert_eq!(kind, std::io::ErrorKind::NotFound);
    assert_eq!(text, "open /dev/uinput: no such file");
    assert_eq!(context("", 7, ""), (7, ": ".to_string()));
}

#[test]
fn suffixes_as_std_finds_them() {
    for text in ["", "x", "Pad (holdtap)", " (holdtap)", "(holdtap)", "é (holdtap)", "Pad (holdtap) "] {
        for suffix in ["", " (holdtap)", "p)", "é (holdtap)"] {
            assert_eq!(ends_with(text, suffix), text.ends_with(suffix));
        }
    }
    assert!(reads(&"é".to_string(), "é"));
    assert!(!reads(&"é".to_string(), "e"));
}
