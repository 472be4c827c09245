use holdtap::codes::{
    ABS_MT_POSITION_X, ABS_MT_POSITION_Y, ABS_MT_SLOT, ABS_MT_TRACKING_ID, BTN_LEFT, BTN_TOUCH,
    EV_ABS, EV_KEY, EV_SYN,
};
use holdtap::event::{is_mt_attribute, Event};
use holdtap::recognizer::Config;
use holdtap::session::{Action, Session};

fn ms(value: u64) -> u128 {
    u128::from(value) * 1_000_000
}

fn session() -> Session {
    Session::new(12, &Config::default(), |length_mm, units_per_mm| {
        (length_mm.parse::<f64>().unwrap() * f64::from(units_per_mm)).round() as i64
    })
}

fn slot(value: i32) -> Event {
    Event::new(EV_ABS, ABS_MT_SLOT, value)
}

fn track(value: i32) -> Event {
    Event::new(EV_ABS, ABS_MT_TRACKING_ID, value)
}

fn x(value: i32) -> Event {
    Event::new(EV_ABS, ABS_MT_POSITION_X, value)
}

fn y(value: i32) -> Event {
    Event::new(EV_ABS, ABS_MT_POSITION_Y, value)
}

fn key(code: u16, value: i32) -> Event {
    Event::new(EV_KEY, code, value)
}

fn syn() -> Event {
    Event::new(EV_SYN, 0, 0)
}

fn counts(values: [i32; 5]) -> Vec<Event> {
    let codes = [0x145, 0x14d, 0x14e, 0x14f, 0x148];
    (0..5).map(|i| key(codes[i], values[i])).collect()
}

fn reports(actions: Vec<Action>) -> Vec<Vec<Event>> {
    actions
        .into_iter()
        .map(|action| match action {
            Action::Emit(events) => events,
            Action::Resynchronized(count) => panic!("unexpected: {}", count),
        })
        .collect()
}

fn learned(reports: &[Vec<Event>]) -> Vec<(i32, u16, i32)> {
    let mut slot = 0;
    let mut result = Vec::new();
    for event in reports.iter().flatten() {
        if event.kind == EV_ABS {
            if event.code == ABS_MT_SLOT {
                slot = event.value;
            } else if is_mt_attribute(event.code) {
                result.push((slot, event.code, event.value));
            }
        }
    }
    result
}

fn established(s: &mut Session) {
    let first = reports(s.poll(&vec![track(10), x(100), y(100), key(BTN_TOUCH, 1), syn()], ms(0)));
    assert_eq!(first.len(), 1);
    let second = reports(s.poll(&vec![x(125), syn()], ms(60)));
    let mut expected = vec![slot(0), x(125)];
    expected.extend(counts([1, 0, 0, 0, 0]));
    assert_eq!(second, vec![expected]);
}

#[test]
fn tap_is_hidden_and_becomes_a_click() {
    let mut s = session();
    established(&mut s);
    let mut all = reports(s.poll(
        &vec![slot(1), track(11), x(400), y(400), key(0x145, 0), key(0x14d, 1), syn()],
        ms(70),
    ));
    // The slot is selected before anything says that a finger lands there.
    let mut expected = vec![slot(1)];
    expected.extend(counts([1, 0, 0, 0, 0]));
    assert_eq!(all, vec![expected]);
    all.extend(reports(s.poll(&vec![slot(0), x(127), slot(1), y(401), syn()], ms(80))));
    all.extend(reports(s.poll(&vec![], ms(90))));
    let released = reports(s.poll(&vec![track(-1)], ms(100)));
    assert_eq!(
        released,
        vec![
            counts([1, 0, 0, 0, 0]),
            vec![key(BTN_LEFT, 1)],
            vec![key(BTN_LEFT, 0)],
        ]
    );
    all.extend(released);
    assert_eq!(learned(&all), vec![(0, ABS_MT_POSITION_X, 127)]);
}

#[test]
fn held_finger_is_shown_in_silence() {
    let mut s = session();
    established(&mut s);
    reports(s.poll(&vec![slot(1), track(11), x(400), y(500), syn()], ms(70)));
    assert!(s.poll(&vec![], ms(209)).is_empty());
    let mut expected = vec![slot(1), track(11), slot(1), x(400), slot(1), y(500)];
    expected.extend(counts([0, 1, 0, 0, 0]));
    assert_eq!(reports(s.poll(&vec![], ms(210))), vec![expected]);
    assert!(s.poll(&vec![], ms(900)).is_empty());
}

#[test]
fn moving_finger_is_shown_at_once() {
    let mut s = session();
    established(&mut s);
    reports(s.poll(&vec![slot(1), track(11), x(400), y(500), syn()], ms(70)));
    let shown = reports(s.poll(&vec![x(409), y(505), syn()], ms(75)));
    assert_eq!(shown.len(), 1);
    assert_eq!(
        learned(&shown),
        vec![
            (1, ABS_MT_TRACKING_ID, 11),
            (1, ABS_MT_POSITION_X, 409),
            (1, ABS_MT_POSITION_Y, 505),
        ]
    );
}

#[test]
fn third_finger_shows_the_second_first() {
    let mut s = session();
    established(&mut s);
    reports(s.poll(&vec![slot(1), track(11), x(400), y(500), syn()], ms(70)));
    let shown = reports(s.poll(&vec![slot(2), track(12), x(7), y(8), syn()], ms(75)));
    assert_eq!(
        learned(&shown),
        vec![
            (1, ABS_MT_TRACKING_ID, 11),
            (1, ABS_MT_POSITION_X, 400),
            (1, ABS_MT_POSITION_Y, 500),
            (2, ABS_MT_TRACKING_ID, 12),
            (2, ABS_MT_POSITION_X, 7),
            (2, ABS_MT_POSITION_Y, 8),
        ]
    );
    assert!(shown[0].ends_with(&counts([0, 0, 1, 0, 0])));
}

#[test]
fn first_finger_that_leaves_shows_the_second() {
    let mut s = session();
    established(&mut s);
    reports(s.poll(&vec![slot(1), track(11), x(400), y(500), syn()], ms(70)));
    let shown = reports(s.poll(&vec![slot(0), track(-1), syn()], ms(75)));
    assert_eq!(
        learned(&shown),
        vec![
            (1, ABS_MT_TRACKING_ID, 11),
            (1, ABS_MT_POSITION_X, 400),
            (1, ABS_MT_POSITION_Y, 500),
            (0, ABS_MT_TRACKING_ID, -1),
        ]
    );
}

#[test]
fn position_waits_for_both_coordinates() {
    let mut s = session();
    established(&mut s);
    reports(s.poll(&vec![slot(1), track(11), x(400), syn()], ms(70)));
    assert_eq!(reports(s.poll(&vec![x(450), syn()], ms(71))), vec![counts([1, 0, 0, 0, 0])]);
    assert_eq!(reports(s.poll(&vec![y(10), syn()], ms(72))), vec![counts([1, 0, 0, 0, 0])]);
    assert_eq!(learned(&reports(s.poll(&vec![x(440), syn()], ms(73)))).len(), 3);
}

#[test]
fn lost_releases_are_made_up_for() {
    let mut s = session();
    established(&mut s);
    reports(s.poll(&vec![slot(5), track(11), x(400), y(500), syn()], ms(70)));
    let actions = s.handle(key(BTN_TOUCH, 0), ms(80));
    assert_eq!(actions.len(), 1);
    assert!(matches!(actions[0], Action::Resynchronized(2)));
    let closed = reports(s.handle(syn(), ms(80)));
    let mut expected = vec![slot(0), track(-1), slot(5), track(-1), key(BTN_TOUCH, 0)];
    expected.extend(counts([0, 0, 0, 0, 0]));
    assert_eq!(closed, vec![expected]);
    assert!(s.handle(key(BTN_TOUCH, 0), ms(90)).is_empty());
}

#[test]
fn batches_make_no_difference() {
    let events = vec![slot(1), track(11), x(400), y(500), syn(), x(420), syn(), track(-1), syn()];
    let mut whole = session();
    established(&mut whole);
    let at_once = reports(whole.poll(&events, ms(70)));
    let mut parts = session();
    established(&mut parts);
    let mut one_by_one = Vec::new();
    for event in &events {
        one_by_one.extend(reports(parts.poll(&vec![*event], ms(70))));
    }
    assert_eq!(at_once, one_by_one);
}

#[test]
fn slot_numbers_are_cut_to_sixteen_bits() {
    let mut s = session();
    let shown = reports(s.poll(&vec![slot(0x1_0003), track(9), syn()], ms(0)));
    assert_eq!(learned(&shown), vec![(3, ABS_MT_TRACKING_ID, 9)]);
}

#[test]
fn other_events_keep_their_time_and_order() {
    let mut s = session();
    let stamped = Event {
        seconds: 12,
        micros: 34,
        kind: 4,
        code: 5,
        value: 6,
    };
    let dropped = Event::new(EV_SYN, 3, 0);
    let closed = reports(s.poll(&vec![stamped, key(0x14d, 1), dropped, syn()], ms(0)));
    let mut expected = vec![stamped, dropped];
    expected.extend(counts([0, 0, 0, 0, 0]));
    assert_eq!(closed, vec![expected]);
}

#[test]
fn pointer_axes_of_a_hidden_contact_are_hidden_too() {
    let mut s = session();
    established(&mut s);
    let shown = reports(s.poll(
        &vec![slot(1), track(11), Event::new(EV_ABS, 0, 400), syn()],
        ms(70),
    ));
    let mut expected = vec![slot(1)];
    expected.extend(counts([1, 0, 0, 0, 0]));
    assert_eq!(shown, vec![expected]);
}

#[test]
fn idle_without_a_hidden_contact_does_nothing() {
    let mut s = session();
    assert!(s.idle(ms(1000)).is_empty());
    established(&mut s);
    assert!(s.idle(ms(1000)).is_empty());
}
