//! What each step of the recognizer does, over positions, times and thresholds themselves.

use vstd::prelude::*;

use crate::recognizer::{
    Config, ConfigState, Contact, Decision, Nanos, Point, RecognizerState, Thresholds,
};

verus! {

/// The displacement is the Euclidean one: the squares of the differences of both coordinates,
/// added up. A contact that has not reported a position yet has none.
pub proof fn law_displacement_is_euclidean(contact: Contact, a: Point, b: Point)
    ensures
        contact.origin == Some(a) && contact.current == Some(b) ==> contact.distance_squared() == (
        b.x - a.x) * (b.x - a.x) + (b.y - a.y) * (b.y - a.y),
        contact.origin is None || contact.current is None ==> contact.distance_squared() == 0,
{
}

/// The displacement depends on how far apart two points are along each axis, not on the
/// direction, on where they lie, or on which axis is which.
pub proof fn law_displacement_has_no_direction(first: Contact, second: Contact)
    requires
        first.origin is Some,
        first.current is Some,
        second.origin is Some,
        second.current is Some,
        ({
            let dx = first.current->0.x - first.origin->0.x;
            let dy = first.current->0.y - first.origin->0.y;
            let ex = second.current->0.x - second.origin->0.x;
            let ey = second.current->0.y - second.origin->0.y;
            ||| (ex == dx || ex == -dx) && (ey == dy || ey == -dy)
            ||| (ex == dy || ex == -dy) && (ey == dx || ey == -dx)
        }),
    ensures
        first.distance_squared() == second.distance_squared(),
{
    let dx = first.current->0.x - first.origin->0.x;
    let dy = first.current->0.y - first.origin->0.y;
    assert((-dx) * (-dx) == dx * dx) by (nonlinear_arith);
    assert((-dy) * (-dy) == dy * dy) by (nonlinear_arith);
}

/// A contact that is `n` units away along an axis, in either direction, is displaced by at least
/// `n`; one that is less than `n` away along both axes is displaced by less than the diagonal of
/// the square with side `n`.
pub proof fn law_displacement_bounds(contact: Contact, a: Point, b: Point, n: int)
    requires
        contact.origin == Some(a),
        contact.current == Some(b),
        n >= 0,
    ensures
        b.x - a.x >= n || a.x - b.x >= n || b.y - a.y >= n || a.y - b.y >= n
            ==> contact.distance_squared() >= n * n,
        -n < b.x - a.x < n && -n < b.y - a.y < n ==> contact.distance_squared() < 2 * (n * n),
{
    let dx = b.x - a.x;
    let dy = b.y - a.y;
    assert(dx * dx >= 0 && dy * dy >= 0) by (nonlinear_arith);
    assert(dx >= n || -dx >= n ==> dx * dx >= n * n) by (nonlinear_arith)
        requires
            n >= 0,
    ;
    assert(dy >= n || -dy >= n ==> dy * dy >= n * n) by (nonlinear_arith)
        requires
            n >= 0,
    ;
    assert(-n < dx < n ==> dx * dx < n * n) by (nonlinear_arith);
    assert(-n < dy < n ==> dy * dy < n * n) by (nonlinear_arith);
}

/// A finger that lands is on record with the moment and no position; the fingers in other slots,
/// and the thresholds, are as before.
pub proof fn law_landing_finger_is_on_record(state: RecognizerState, slot: u16, now: Nanos)
    ensures
        ({
            let after = state.touch_down(slot, now);
            &&& after.contacts.dom() == state.contacts.dom().insert(slot)
            &&& after.contacts[slot].started == now
            &&& after.contacts[slot].origin is None
            &&& after.contacts[slot].current is None
            &&& forall|other: u16|
                other != slot ==> #[trigger] after.contacts[other] == state.contacts[other]
            &&& after.min_primary_age == state.min_primary_age
            &&& after.primary_move_squared == state.primary_move_squared
            &&& after.tap_timeout == state.tap_timeout
            &&& after.scroll_move_squared == state.scroll_move_squared
        }),
{
}

/// The finger that lands while exactly one other is down is hidden exactly if the other is down
/// for the required time and has moved the required distance from where it was first seen, however
/// long ago and however far; otherwise it passes.
pub proof fn law_second_finger_is_hidden_beside_a_moving_one(
    state: RecognizerState,
    primary: u16,
    slot: u16,
    now: Nanos,
)
    requires
        state.contacts.dom().finite(),
        state.contacts.len() == 1,
        state.contacts.contains_key(primary),
        primary != slot,
        state.pending is None,
    ensures
        ({
            let first = state.contacts[primary];
            let old_enough = now - first.started >= state.min_primary_age || state.min_primary_age
                == 0;
            let far_enough = match (first.origin, first.current) {
                (Some(a), Some(b)) => (b.x - a.x) * (b.x - a.x) + (b.y - a.y) * (b.y - a.y)
                    >= state.primary_move_squared,
                _ => 0 >= state.primary_move_squared,
            };
            if old_enough && far_enough {
                &&& state.touch_down_decision(slot, now) == Decision::Hide(slot)
                &&& state.touch_down(slot, now).pending == Some((slot, now))
            } else {
                &&& state.touch_down_decision(slot, now) == Decision::Pass
                &&& state.touch_down(slot, now).pending is None
            }
        }),
{
    let keys = state.contacts.dom();
    assert(keys.remove(primary).len() == 0);
    assert(keys =~= set![primary]) by {
        assert forall|k: u16| keys.contains(k) implies k == primary by {
            if k != primary {
                assert(keys.remove(primary).contains(k));
            }
        }
    }
    assert(forall|p: u16| keys == set![p] ==> set![p].contains(primary) && p == primary);
    assert(state.established(state.contacts[primary], now) == state.joins_pointer(slot, now));
}

/// A finger that lands with none or several others down, or in a slot that has one already,
/// passes if none is hidden.
pub proof fn law_other_fingers_pass(state: RecognizerState, slot: u16, now: Nanos)
    requires
        state.contacts.dom().finite(),
        state.pending is None,
        state.contacts.len() != 1 || state.contacts.contains_key(slot),
    ensures
        state.touch_down_decision(slot, now) == Decision::Pass,
        state.touch_down(slot, now).pending is None,
{
    if state.joins_pointer(slot, now) {
        let p = choose|p: u16|
            p != slot && state.contacts.dom() == set![p] && state.established(
                #[trigger] state.contacts[p],
                now,
            );
        assert(set![p].len() == 1);
        assert(!set![p].contains(slot));
    }
}

/// A finger that lands while another is hidden shows that other one, whoever lands and whenever.
pub proof fn law_further_finger_shows_the_hidden_one(
    state: RecognizerState,
    slot: u16,
    now: Nanos,
    hidden: u16,
    since: Nanos,
)
    requires
        state.pending == Some((hidden, since)),
    ensures
        state.touch_down_decision(slot, now) == Decision::RestoreForScroll(hidden),
        state.touch_down(slot, now).pending is None,
{
}

/// A report of a position puts it on record as the current one of its finger, and as the first
/// one if it is; the moment of landing, all other fingers, the hidden one and the thresholds are
/// as before. A report of a slot without a finger changes nothing.
pub proof fn law_position_is_on_record(state: RecognizerState, slot: u16, point: Point)
    ensures
        ({
            let after = state.moved(slot, point);
            &&& after.contacts.dom() == state.contacts.dom()
            &&& forall|other: u16|
                other != slot ==> #[trigger] after.contacts[other] == state.contacts[other]
            &&& state.contacts.contains_key(slot) ==> {
                &&& after.contacts[slot].started == state.contacts[slot].started
                &&& after.contacts[slot].current == Some(point)
                &&& state.contacts[slot].origin is None ==> after.contacts[slot].origin == Some(
                    point,
                )
                &&& state.contacts[slot].origin is Some ==> after.contacts[slot].origin
                    == state.contacts[slot].origin
            }
            &&& !state.contacts.contains_key(slot) ==> after == state
            &&& after.pending == state.pending
            &&& after.min_primary_age == state.min_primary_age
            &&& after.primary_move_squared == state.primary_move_squared
            &&& after.tap_timeout == state.tap_timeout
            &&& after.scroll_move_squared == state.scroll_move_squared
        }),
{
    assert(state.moved(slot, point).contacts.dom() =~= state.contacts.dom());
}

/// Whenever it is looked at, the hidden finger is shown exactly if it is as far from where it was
/// first seen as the scroll threshold, or down for the tap timeout; else it stays hidden. Nothing
/// else changes. Without a hidden finger nothing happens.
pub proof fn law_hidden_finger_is_judged_by_distance_and_time(state: RecognizerState, now: Nanos)
    ensures
        state.tick(now) == (RecognizerState { pending: state.tick(now).pending, ..state }),
        match state.pending {
            None => state.tick_decision(now) == Decision::Pass && state.tick(now).pending is None,
            Some((slot, since)) => {
                let contact = state.contacts[slot];
                let far = match (contact.origin, contact.current) {
                    (Some(a), Some(b)) => (b.x - a.x) * (b.x - a.x) + (b.y - a.y) * (b.y - a.y)
                        >= state.scroll_move_squared,
                    _ => 0 >= state.scroll_move_squared,
                };
                let late = now - since >= state.tap_timeout || state.tap_timeout == 0;
                if far || late {
                    &&& state.tick_decision(now) == Decision::RestoreForScroll(slot)
                    &&& state.tick(now).pending is None
                } else {
                    &&& state.tick_decision(now) == Decision::Hide(slot)
                    &&& state.tick(now).pending == state.pending
                }
            },
        },
{
}

/// A hidden finger that reports a position as far away as the scroll threshold, along either axis
/// and in either direction, is shown at once.
pub proof fn law_motion_along_an_axis_scrolls(
    state: RecognizerState,
    slot: u16,
    since: Nanos,
    origin: Point,
    point: Point,
    now: Nanos,
    units: int,
)
    requires
        state.pending == Some((slot, since)),
        state.contacts.contains_key(slot),
        state.contacts[slot].origin == Some(origin),
        units >= 0,
        state.scroll_move_squared == units * units,
        point.x - origin.x >= units || origin.x - point.x >= units || point.y - origin.y >= units
            || origin.y - point.y >= units,
    ensures
        state.moved(slot, point).tick_decision(now) == Decision::RestoreForScroll(slot),
        state.moved(slot, point).tick(now).pending is None,
{
    law_position_is_on_record(state, slot, point);
    law_displacement_bounds(state.moved(slot, point).contacts[slot], origin, point, units);
}

/// A finger that leaves is off the record, and no other is; after that none is hidden. If it was
/// the hidden one it clicks, if another was hidden that one is shown, else it passes.
pub proof fn law_leaving_finger(state: RecognizerState, slot: u16)
    ensures
        ({
            let after = state.touch_up(slot);
            &&& after.contacts.dom() == state.contacts.dom().remove(slot)
            &&& forall|other: u16|
                other != slot ==> #[trigger] after.contacts[other] == state.contacts[other]
            &&& after.pending is None
            &&& after.min_primary_age == state.min_primary_age
            &&& after.primary_move_squared == state.primary_move_squared
            &&& after.tap_timeout == state.tap_timeout
            &&& after.scroll_move_squared == state.scroll_move_squared
        }),
        match state.pending {
            None => state.touch_up_decision(slot) == Decision::Pass,
            Some((hidden, _)) => if hidden == slot {
                state.touch_up_decision(slot) == Decision::Click(slot)
            } else {
                state.touch_up_decision(slot) == Decision::RestoreForScroll(hidden)
            },
        },
{
}

/// The visible fingers are all that are down but the hidden one.
pub proof fn law_visible_fingers_are_all_but_the_hidden(state: RecognizerState)
    ensures
        state.pending is None ==> state.visible() == state.contacts.len(),
        state.pending is Some ==> state.visible() == state.contacts.len() - 1,
        state.hidden() is Some <==> state.pending is Some,
        state.pending matches Some(p) ==> state.hidden() == Some(p.0),
{
}

/// A finger that lands in a slot of its own is counted, and one that leaves is no longer: the
/// number of fingers goes up and down by one.
pub proof fn law_fingers_are_counted(state: RecognizerState, slot: u16, now: Nanos)
    requires
        state.contacts.dom().finite(),
        !state.contacts.contains_key(slot),
        state.pending is None,
    ensures
        state.touch_down(slot, now).contacts.len() == state.contacts.len() + 1,
        state.touch_down(slot, now).visible() == state.contacts.len() + if state.touch_down(
            slot,
            now,
        ).pending is Some {
            0int
        } else {
            1
        },
        state.touch_down(slot, now).touch_up(slot).visible() == state.visible(),
{
    assert(state.touch_down(slot, now).touch_up(slot).contacts.dom() =~= state.contacts.dom());
}

/// A recognizer starts without fingers, with the times as they are given and the squares of the
/// lengths.
pub proof fn law_start(thresholds: Thresholds)
    ensures
        ({
            let state = RecognizerState::fresh(thresholds);
            &&& state.contacts.dom() == Set::<u16>::empty()
            &&& state.pending is None
            &&& state.min_primary_age == thresholds.min_primary_age
            &&& state.tap_timeout == thresholds.tap_timeout
            &&& state.primary_move_squared == thresholds.primary_move_units
                * thresholds.primary_move_units
            &&& state.scroll_move_squared == thresholds.scroll_move_units
                * thresholds.scroll_move_units
        }),
{
}

/// A reset leaves no finger and keeps the thresholds.
pub proof fn law_reset(state: RecognizerState)
    ensures
        state.reset().contacts.dom() == Set::<u16>::empty(),
        state.reset().pending is None,
        state.reset().min_primary_age == state.min_primary_age,
        state.reset().primary_move_squared == state.primary_move_squared,
        state.reset().tap_timeout == state.tap_timeout,
        state.reset().scroll_move_squared == state.scroll_move_squared,
{
}

/// Settings scale with their times kept, and each length is scaled on its own at a resolution of
/// at least one.
pub proof fn law_settings_scale<F: Fn(&String, i32) -> i64>(
    resolution: i32,
    config: Config,
    scale: F,
    thresholds: Thresholds,
    units: i32,
)
    requires
        config.scales_to(resolution, scale, thresholds),
        resolution >= 1 ==> units == resolution,
        resolution < 1 ==> units == 1,
    ensures
        thresholds.min_primary_age == config.min_primary_age,
        thresholds.tap_timeout == config.tap_timeout,
        scale.ensures((&config.primary_move_mm, units), thresholds.primary_move_units),
        scale.ensures((&config.scroll_move_mm, units), thresholds.scroll_move_units),
{
}

/// A recognizer that is made from settings has no fingers, their times, and the squares of what
/// their lengths scale to at a resolution of at least one.
pub proof fn law_settings_become_the_start<F: Fn(&String, i32) -> i64>(
    state: RecognizerState,
    resolution: i32,
    config: Config,
    scale: F,
    units: i32,
)
    requires
        state.starts(resolution, config, scale),
        resolution >= 1 ==> units == resolution,
        resolution < 1 ==> units == 1,
    ensures
        state.contacts.dom() == Set::<u16>::empty(),
        state.pending is None,
        state.min_primary_age == config.min_primary_age,
        state.tap_timeout == config.tap_timeout,
        exists|length: i64| #[trigger]
            scale.ensures((&config.primary_move_mm, units), length) && state.primary_move_squared
                == length * length,
        exists|length: i64| #[trigger]
            scale.ensures((&config.scroll_move_mm, units), length) && state.scroll_move_squared
                == length * length,
{
    let thresholds = choose|thresholds: Thresholds| #[trigger]
        config.scales_to(resolution, scale, thresholds) && state == RecognizerState::fresh(
            thresholds,
        );
    law_settings_scale(resolution, config, scale, thresholds, units);
    law_start(thresholds);
    assert(scale.ensures((&config.primary_move_mm, units), thresholds.primary_move_units));
    assert(scale.ensures((&config.scroll_move_mm, units), thresholds.scroll_move_units));
}

/// The meaning of settings is in their fields.
pub proof fn law_settings_mean_their_fields(config: Config)
    ensures
        config@ == (ConfigState {
            min_primary_age: config.min_primary_age,
            primary_move_mm: config.primary_move_mm@,
            tap_timeout: config.tap_timeout,
            scroll_move_mm: config.scroll_move_mm@,
        }),
{
}

/// The defaults are 45 and 140 milliseconds, and 1.5 and 0.8 millimetres.
pub proof fn law_default_settings()
    ensures
        ConfigState::defaults().min_primary_age == 45_000_000,
        ConfigState::defaults().primary_move_mm == "1.5"@,
        ConfigState::defaults().tap_timeout == 140_000_000,
        ConfigState::defaults().scroll_move_mm == "0.8"@,
{
}

} // verus!
