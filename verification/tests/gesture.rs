use holdtap::recognizer::{
    from_millis, units_per_mm, Config, Contact, Decision, Nanos, Point, Recognizer, Thresholds,
};

fn ms(value: u64) -> Nanos {
    std::time::Duration::from_millis(value).as_nanos()
}

fn scale(length_mm: &String, units_per_mm: i32) -> i64 {
    (length_mm.parse::<f64>().unwrap() * f64::from(units_per_mm)).round() as i64
}

fn established_primary(r: &mut Recognizer) {
    assert_eq!(r.touch_down(0, 10, ms(0)), Decision::Pass);
    r.position(0, Point { x: 100, y: 100 }, ms(1));
    r.position(0, Point { x: 125, y: 100 }, ms(60));
}

fn recognizer() -> Recognizer {
    Recognizer::new(12, &Config::default(), scale)
}

#[test]
fn quick_second_finger_tap_clicks() {
    let mut r = recognizer();
    established_primary(&mut r);
    assert_eq!(r.touch_down(1, 11, ms(70)), Decision::Hide(1));
    r.position(1, Point { x: 400, y: 400 }, ms(71));
    assert_eq!(r.touch_up(1), Decision::Click(1));
}

#[test]
fn second_finger_motion_restores_scroll_early() {
    let mut r = recognizer();
    established_primary(&mut r);
    r.touch_down(1, 11, ms(70));
    r.position(1, Point { x: 400, y: 400 }, ms(71));
    assert_eq!(
        r.position(1, Point { x: 410, y: 400 }, ms(80)),
        Decision::RestoreForScroll(1)
    );
}

#[test]
fn held_second_finger_restores_scroll_on_timeout() {
    let mut r = recognizer();
    established_primary(&mut r);
    r.touch_down(1, 11, ms(70));
    r.position(1, Point { x: 400, y: 400 }, ms(71));
    assert_eq!(r.tick(ms(209)), Decision::Hide(1));
    assert_eq!(r.tick(ms(210)), Decision::RestoreForScroll(1));
}

#[test]
fn two_fingers_placed_together_pass_through() {
    let mut r = recognizer();
    r.touch_down(0, 10, ms(0));
    assert_eq!(r.touch_down(1, 11, ms(10)), Decision::Pass);
    assert_eq!(r.pending_slot(), None);
}

#[test]
fn extra_fingers_are_not_intercepted() {
    let mut r = recognizer();
    established_primary(&mut r);
    r.touch_down(1, 11, ms(70));
    assert_eq!(r.touch_down(2, 12, ms(75)), Decision::RestoreForScroll(1));
    assert_eq!(r.visible_contacts(), 3);
}

#[test]
fn default_settings() {
    let config = Config::default();
    assert_eq!(config.min_primary_age, ms(45));
    assert_eq!(config.tap_timeout, ms(140));
    assert_eq!(config.primary_move_mm, "1.5");
    assert_eq!(config.scroll_move_mm, "0.8");
    assert_eq!(config.primary_move_mm.parse::<f64>(), Ok(1.5));
    assert_eq!(config.scroll_move_mm.parse::<f64>(), Ok(0.8));
}

#[test]
fn default_thresholds() {
    let thresholds = Config::default().thresholds(12, scale);
    assert_eq!(thresholds.min_primary_age, 45_000_000);
    assert_eq!(thresholds.tap_timeout, 140_000_000);
    assert_eq!(thresholds.primary_move_units, 18);
    assert_eq!(thresholds.scroll_move_units, 10);
}

#[test]
fn unknown_resolution_counts_as_one() {
    for resolution in [i32::MIN, -12, 0, 1] {
        assert_eq!(units_per_mm(resolution), 1);
        let thresholds = Config::default().thresholds(resolution, scale);
        assert_eq!(thresholds.primary_move_units, 2);
        assert_eq!(thresholds.scroll_move_units, 1);
        let mut r = Recognizer::new(resolution, &Config::default(), scale);
        r.touch_down(0, 10, ms(0));
        r.position(0, Point { x: 0, y: 0 }, ms(1));
        r.position(0, Point { x: 1, y: 1 }, ms(2));
        assert_eq!(r.touch_down(1, 11, ms(60)), Decision::Pass);
        r.touch_up(1);
        r.position(0, Point { x: 2, y: 0 }, ms(61));
        assert_eq!(r.touch_down(1, 11, ms(62)), Decision::Hide(1));
        r.position(1, Point { x: 9, y: 9 }, ms(63));
        assert_eq!(r.tick(ms(64)), Decision::Hide(1));
        assert_eq!(
            r.position(1, Point { x: 9, y: 8 }, ms(65)),
            Decision::RestoreForScroll(1)
        );
    }
    assert_eq!(units_per_mm(2), 2);
    assert_eq!(units_per_mm(12), 12);
}

#[test]
fn milliseconds_in_nanoseconds() {
    for value in [0, 1, 140, u64::MAX] {
        assert_eq!(from_millis(value), ms(value));
    }
}

#[test]
fn squared_displacement() {
    let mut contact = Contact {
        started: 0,
        origin: None,
        current: None,
    };
    assert_eq!(contact.displacement_squared(), 0);
    contact.origin = Some(Point { x: 1, y: -2 });
    assert_eq!(contact.displacement_squared(), 0);
    contact.current = Some(Point { x: 4, y: 2 });
    assert_eq!(contact.displacement_squared(), 25);
    contact.origin = Some(Point { x: i32::MIN, y: i32::MIN });
    contact.current = Some(Point { x: i32::MAX, y: i32::MAX });
    let side = i128::from(u32::MAX);
    assert_eq!(contact.displacement_squared(), 2 * side * side);
}

#[test]
fn scroll_threshold_is_inclusive() {
    let mut r = recognizer();
    established_primary(&mut r);
    r.touch_down(1, 11, ms(70));
    assert_eq!(r.position(1, Point { x: 400, y: 400 }, ms(71)), Decision::Hide(1));
    assert_eq!(r.position(1, Point { x: 409, y: 404 }, ms(72)), Decision::Hide(1));
    assert_eq!(
        r.position(1, Point { x: 406, y: 408 }, ms(73)),
        Decision::RestoreForScroll(1)
    );
    assert_eq!(r.pending_slot(), None);
    assert_eq!(r.touch_up(1), Decision::Pass);
}

#[test]
fn primary_thresholds_are_inclusive() {
    let mut r = recognizer();
    r.touch_down(0, 10, ms(100));
    r.position(0, Point { x: 0, y: 0 }, ms(101));
    r.position(0, Point { x: 0, y: 18 }, ms(102));
    assert_eq!(r.touch_down(1, 11, ms(145)), Decision::Hide(1));

    let mut young = recognizer();
    young.touch_down(0, 10, ms(100));
    young.position(0, Point { x: 0, y: 0 }, ms(101));
    young.position(0, Point { x: 0, y: 18 }, ms(102));
    assert_eq!(young.touch_down(1, 11, ms(145) - 1), Decision::Pass);

    let mut still = recognizer();
    still.touch_down(0, 10, ms(100));
    still.position(0, Point { x: 0, y: 0 }, ms(101));
    still.position(0, Point { x: 0, y: 17 }, ms(102));
    assert_eq!(still.touch_down(1, 11, ms(200)), Decision::Pass);
}

#[test]
fn time_that_runs_backwards_is_no_time() {
    let mut r = recognizer();
    r.touch_down(0, 10, ms(100));
    r.position(0, Point { x: 0, y: 0 }, ms(101));
    r.position(0, Point { x: 50, y: 0 }, ms(102));
    assert_eq!(r.touch_down(1, 11, ms(50)), Decision::Pass);
}

#[test]
fn first_finger_that_leaves_restores_the_second() {
    let mut r = recognizer();
    established_primary(&mut r);
    assert_eq!(r.touch_down(1, 11, ms(70)), Decision::Hide(1));
    assert_eq!(r.visible_contacts(), 1);
    assert_eq!(r.touch_up(0), Decision::RestoreForScroll(1));
    assert_eq!(r.pending_slot(), None);
    assert_eq!(r.contact_count(), 1);
    assert_eq!(r.visible_contacts(), 1);
}

#[test]
fn same_slot_twice_is_no_second_finger() {
    let mut r = recognizer();
    established_primary(&mut r);
    assert_eq!(r.touch_down(0, 12, ms(70)), Decision::Pass);
    assert_eq!(r.contact_count(), 1);
}

#[test]
fn tap_leaves_no_trace() {
    let mut r = recognizer();
    established_primary(&mut r);
    for round in 0u64..3 {
        assert_eq!(r.touch_down(1, 11, ms(70 + round * 50)), Decision::Hide(1));
        assert_eq!(r.touch_up(1), Decision::Click(1));
        assert_eq!(r.contact_count(), 1);
        assert_eq!(r.pending_slot(), None);
    }
}

#[test]
fn position_of_an_unknown_slot_still_classifies() {
    let mut r = recognizer();
    established_primary(&mut r);
    r.touch_down(1, 11, ms(70));
    assert_eq!(r.position(7, Point { x: 0, y: 0 }, ms(209)), Decision::Hide(1));
    assert_eq!(
        r.position(7, Point { x: 900, y: 0 }, ms(210)),
        Decision::RestoreForScroll(1)
    );
    assert_eq!(r.contact_count(), 2);
}

#[test]
fn reset_forgets_fingers_and_keeps_thresholds() {
    let mut r = recognizer();
    established_primary(&mut r);
    r.touch_down(1, 11, ms(70));
    r.reset();
    assert_eq!(r.contact_count(), 0);
    assert_eq!(r.visible_contacts(), 0);
    assert_eq!(r.pending_slot(), None);
    assert_eq!(r.tick(ms(500)), Decision::Pass);
    established_primary(&mut r);
    assert_eq!(r.touch_down(1, 11, ms(70)), Decision::Hide(1));
}

#[test]
fn extreme_thresholds() {
    let mut r = Recognizer::with_thresholds(Thresholds {
        min_primary_age: 0,
        primary_move_units: 0,
        tap_timeout: u128::MAX,
        scroll_move_units: i64::MIN,
    });
    assert_eq!(r.touch_down(3, 1, 0), Decision::Pass);
    assert_eq!(r.touch_down(4, 2, 0), Decision::Hide(4));
    r.position(4, Point { x: i32::MIN, y: i32::MIN }, 1);
    assert_eq!(
        r.position(4, Point { x: i32::MAX, y: i32::MAX }, u128::MAX - 1),
        Decision::Hide(4)
    );
}
