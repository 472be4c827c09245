//! What holds of the recognizer as a whole, whatever the fingers do.

use vstd::prelude::*;

use crate::recognizer;
use crate::recognizer::{Config, Contact, Decision, Nanos, Point, RecognizerState, Thresholds};

verus! {

/// A report that moves time, and perhaps a finger, on.
pub enum Motion {
    Position(u16, Point, Nanos),
    Tick(Nanos),
}

/// The moment of `motion`.
pub open spec fn motion_time(motion: Motion) -> Nanos {
    match motion {
        Motion::Position(_, _, now) => now,
        Motion::Tick(now) => now,
    }
}

/// The state after `motion`.
pub open spec fn after_motion(state: RecognizerState, motion: Motion) -> RecognizerState {
    match motion {
        Motion::Position(slot, point, now) => state.moved(slot, point).tick(now),
        Motion::Tick(now) => state.tick(now),
    }
}

/// The decision on `motion`.
pub open spec fn motion_decision(state: RecognizerState, motion: Motion) -> Decision {
    match motion {
        Motion::Position(slot, point, now) => state.moved(slot, point).tick_decision(now),
        Motion::Tick(now) => state.tick_decision(now),
    }
}

/// The state after `motions`, one after the other.
pub open spec fn after_motions(state: RecognizerState, motions: Seq<Motion>) -> RecognizerState
    decreases motions.len(),
{
    if motions.len() == 0 {
        state
    } else {
        after_motion(after_motions(state, motions.drop_last()), motions.last())
    }
}

/// The two states have the same thresholds.
pub open spec fn same_thresholds(a: RecognizerState, b: RecognizerState) -> bool {
    &&& a.min_primary_age == b.min_primary_age
    &&& a.primary_move_squared == b.primary_move_squared
    &&& a.tap_timeout == b.tap_timeout
    &&& a.scroll_move_squared == b.scroll_move_squared
}

/// A fresh recognizer is valid, and every operation keeps a valid one valid and its thresholds
/// as they are.
pub proof fn law_operations_keep_validity(
    state: RecognizerState,
    thresholds: Thresholds,
    slot: u16,
    point: Point,
    now: Nanos,
)
    requires
        state.valid(),
    ensures
        RecognizerState::fresh(thresholds).valid(),
        state.touch_down(slot, now).valid(),
        state.moved(slot, point).tick(now).valid(),
        state.tick(now).valid(),
        state.touch_up(slot).valid(),
        state.reset().valid(),
        same_thresholds(state, state.touch_down(slot, now)),
        same_thresholds(state, state.moved(slot, point).tick(now)),
        same_thresholds(state, state.tick(now)),
        same_thresholds(state, state.touch_up(slot)),
        same_thresholds(state, state.reset()),
{
    recognizer::lemma_touch_down_valid(state, slot, now);
    recognizer::lemma_moved_valid(state, slot, point);
}

/// An operation answers that a contact is hidden exactly if that contact is hidden afterwards;
/// after a finger left, none is.
pub proof fn law_hide_means_hidden(
    state: RecognizerState,
    slot: u16,
    point: Point,
    now: Nanos,
    hidden: u16,
)
    requires
        state.valid(),
    ensures
        state.touch_down_decision(slot, now) == Decision::Hide(hidden) <==> state.touch_down(
            slot,
            now,
        ).hidden() == Some(hidden),
        state.moved(slot, point).tick_decision(now) == Decision::Hide(hidden) <==> state.moved(
            slot,
            point,
        ).tick(now).hidden() == Some(hidden),
        state.tick_decision(now) == Decision::Hide(hidden) <==> state.tick(now).hidden() == Some(
            hidden,
        ),
        state.touch_up(slot).hidden() is None,
        !(state.touch_up_decision(slot) is Hide),
{
}

/// While a contact is hidden, exactly one other finger is down and visible.
pub proof fn law_hidden_beside_one_visible(state: RecognizerState)
    requires
        state.valid(),
        state.hidden() is Some,
    ensures
        state.contacts.len() == 2,
        state.visible() == 1,
{
}

/// Only the hidden contact clicks, and only when it leaves.
pub proof fn law_only_a_lifted_hidden_contact_clicks(
    state: RecognizerState,
    slot: u16,
    point: Point,
    now: Nanos,
    clicked: u16,
)
    ensures
        state.touch_up_decision(slot) == Decision::Click(clicked) <==> state.hidden() == Some(slot)
            && clicked == slot,
        !(state.touch_down_decision(slot, now) is Click),
        !(state.moved(slot, point).tick_decision(now) is Click),
        !(state.tick_decision(now) is Click),
{
}

/// A click or a restoration answers for the contact that was hidden, and none is hidden after
/// it: each hidden contact is answered for once.
pub proof fn law_hidden_contact_is_resolved_once(
    state: RecognizerState,
    slot: u16,
    point: Point,
    now: Nanos,
    resolved: u16,
)
    ensures
        state.touch_up_decision(slot) == Decision::Click(resolved) || state.touch_up_decision(slot)
            == Decision::RestoreForScroll(resolved) ==> state.hidden() == Some(resolved)
            && state.touch_up(slot).hidden() is None,
        state.touch_down_decision(slot, now) == Decision::RestoreForScroll(resolved)
            ==> state.hidden() == Some(resolved) && state.touch_down(slot, now).hidden() is None,
        state.moved(slot, point).tick_decision(now) == Decision::RestoreForScroll(resolved)
            ==> state.hidden() == Some(resolved) && state.moved(slot, point).tick(
            now,
        ).hidden() is None,
        state.tick_decision(now) == Decision::RestoreForScroll(resolved) ==> state.hidden() == Some(
            resolved,
        ) && state.tick(now).hidden() is None,
{
}

/// A second finger that joins an established one is hidden; if it leaves at once it clicks, and
/// the recognizer is as it was before the tap.
pub proof fn law_tap_clicks_and_leaves_no_trace(state: RecognizerState, slot: u16, now: Nanos)
    requires
        state.valid(),
        state.hidden() is None,
        state.joins_pointer(slot, now),
    ensures
        state.touch_down_decision(slot, now) == Decision::Hide(slot),
        state.touch_down(slot, now).touch_up_decision(slot) == Decision::Click(slot),
        state.touch_down(slot, now).touch_up(slot) == state,
{
    let primary = choose|primary: u16|
        primary != slot && state.contacts.dom() == set![primary] && state.established(
            #[trigger] state.contacts[primary],
            now,
        );
    assert(!state.contacts.dom().contains(slot));
    assert(state.contacts.insert(slot, Contact::landed(now)).remove(slot) =~= state.contacts);
}

/// Motion alone neither adds nor removes fingers, hides none, and leaves the hidden one hidden
/// since the same moment, or shows it for good.
pub proof fn law_motion_hides_nothing_new(state: RecognizerState, motions: Seq<Motion>)
    requires
        state.valid(),
    ensures
        after_motions(state, motions).valid(),
        after_motions(state, motions).contacts.dom() == state.contacts.dom(),
        after_motions(state, motions).pending is None || after_motions(state, motions).pending
            == state.pending,
        same_thresholds(state, after_motions(state, motions)),
    decreases motions.len(),
{
    if motions.len() > 0 {
        let before = after_motions(state, motions.drop_last());
        law_motion_hides_nothing_new(state, motions.drop_last());
        match motions.last() {
            Motion::Position(slot, point, now) => {
                recognizer::lemma_moved_valid(before, slot, point);
            },
            Motion::Tick(now) => {},
        }
    }
}

/// However the fingers move meanwhile: if the second finger is still hidden when it leaves, it
/// clicks.
pub proof fn law_quiet_tap_clicks(
    state: RecognizerState,
    slot: u16,
    now: Nanos,
    motions: Seq<Motion>,
)
    requires
        state.valid(),
        state.touch_down_decision(slot, now) == Decision::Hide(slot),
        after_motions(state.touch_down(slot, now), motions).hidden() is Some,
    ensures
        after_motions(state.touch_down(slot, now), motions).touch_up_decision(slot)
            == Decision::Click(slot),
{
    recognizer::lemma_touch_down_valid(state, slot, now);
    law_motion_hides_nothing_new(state.touch_down(slot, now), motions);
}

/// However the fingers move meanwhile: once the second finger is down for the tap timeout, it is
/// no longer hidden. If it still was, it is restored.
pub proof fn law_held_finger_scrolls(
    state: RecognizerState,
    slot: u16,
    landed: Nanos,
    motions: Seq<Motion>,
    motion: Motion,
)
    requires
        state.valid(),
        state.touch_down_decision(slot, landed) == Decision::Hide(slot),
        recognizer::elapsed(motion_time(motion), landed) >= state.tap_timeout,
    ensures
        ({
            let before = after_motions(state.touch_down(slot, landed), motions);
            &&& after_motion(before, motion).hidden() is None
            &&& before.hidden() is Some ==> motion_decision(before, motion)
                == Decision::RestoreForScroll(slot)
        }),
{
    recognizer::lemma_touch_down_valid(state, slot, landed);
    law_motion_hides_nothing_new(state.touch_down(slot, landed), motions);
}

/// A hidden finger stays hidden exactly as long as it is neither as far from where it was first
/// seen as the scroll threshold nor down for the tap timeout.
pub proof fn law_hidden_until_far_or_late(state: RecognizerState, slot: u16, now: Nanos)
    requires
        state.valid(),
        state.hidden() == Some(slot),
    ensures
        state.tick_decision(now) == Decision::Hide(slot) <==> (
        state.contacts[slot].distance_squared() < state.scroll_move_squared && recognizer::elapsed(
            now,
            state.contacts[slot].started,
        ) < state.tap_timeout),
        state.tick_decision(now) != Decision::Hide(slot) ==> state.tick_decision(now)
            == Decision::RestoreForScroll(slot),
{
}

/// A hidden finger that reports a position beyond the scroll threshold is restored at once.
pub proof fn law_moving_finger_scrolls(
    state: RecognizerState,
    slot: u16,
    point: Point,
    now: Nanos,
)
    requires
        state.valid(),
        state.hidden() == Some(slot),
        state.contacts[slot].moved_to(point).distance_squared() >= state.scroll_move_squared,
    ensures
        state.moved(slot, point).tick_decision(now) == Decision::RestoreForScroll(slot),
        state.moved(slot, point).tick(now).hidden() is None,
{
}

/// A further finger restores the hidden one, and all three are visible.
pub proof fn law_extra_finger_is_not_intercepted(state: RecognizerState, slot: u16, now: Nanos)
    requires
        state.valid(),
        state.hidden() is Some,
    ensures
        state.touch_down_decision(slot, now) == Decision::RestoreForScroll(state.hidden()->0),
        state.touch_down(slot, now).hidden() is None,
        !state.contacts.contains_key(slot) ==> state.touch_down(slot, now).visible() == 3,
{
}

/// A finger is hidden only if it is the second one down, in a slot of its own, and the first is
/// established.
pub proof fn law_only_second_finger_is_hidden(state: RecognizerState, slot: u16, now: Nanos)
    requires
        state.valid(),
        state.touch_down_decision(slot, now) == Decision::Hide(slot),
    ensures
        state.contacts.len() == 1,
        !state.contacts.contains_key(slot),
        forall|other: u16| #[trigger]
            state.contacts.contains_key(other) ==> state.established(state.contacts[other], now),
{
    let primary = choose|primary: u16|
        primary != slot && state.contacts.dom() == set![primary] && state.established(
            #[trigger] state.contacts[primary],
            now,
        );
    assert(set![primary].len() == 1);
    assert forall|other: u16| #[trigger] state.contacts.contains_key(other) implies other
        == primary by {
        assert(set![primary].contains(other));
    }
}

/// Two fingers placed together pass: a finger that has not moved from where it was first seen
/// hides no other, if any movement at all is asked of it.
pub proof fn law_resting_finger_hides_nothing(state: RecognizerState, slot: u16, now: Nanos)
    requires
        state.valid(),
        state.hidden() is None,
        state.primary_move_squared > 0,
        forall|other: u16| #[trigger]
            state.contacts.contains_key(other) ==> state.contacts[other].distance_squared() == 0,
    ensures
        state.touch_down_decision(slot, now) == Decision::Pass,
        state.touch_down(slot, now).hidden() is None,
{
    if state.joins_pointer(slot, now) {
        law_only_second_finger_is_hidden(state, slot, now);
        let other = state.contacts.dom().choose();
        assert(state.contacts.contains_key(other));
    }
}

/// The first position that a contact reports is no movement, however far it is from anything.
pub proof fn law_first_position_is_no_movement(landed: Nanos, point: Point)
    ensures
        Contact::landed(landed).distance_squared() == 0,
        Contact::landed(landed).moved_to(point).distance_squared() == 0,
{
    assert(recognizer::square(0) == 0);
}

/// A recognizer that is reset is one that has just been made.
pub proof fn law_reset_is_fresh(state: RecognizerState, thresholds: Thresholds)
    requires
        same_thresholds(state, RecognizerState::fresh(thresholds)),
    ensures
        state.reset() == RecognizerState::fresh(thresholds),
{
}

/// A call on a recognizer.
pub enum Call {
    TouchDown(u16, Nanos),
    Position(u16, Point, Nanos),
    Tick(Nanos),
    TouchUp(u16),
    Reset,
}

/// The state after `call`.
pub open spec fn after_call(state: RecognizerState, call: Call) -> RecognizerState {
    match call {
        Call::TouchDown(slot, now) => state.touch_down(slot, now),
        Call::Position(slot, point, now) => state.moved(slot, point).tick(now),
        Call::Tick(now) => state.tick(now),
        Call::TouchUp(slot) => state.touch_up(slot),
        Call::Reset => state.reset(),
    }
}

/// The decision on `call`; a reset is answered by none.
pub open spec fn call_decision(state: RecognizerState, call: Call) -> Option<Decision> {
    match call {
        Call::TouchDown(slot, now) => Some(state.touch_down_decision(slot, now)),
        Call::Position(slot, point, now) => Some(state.moved(slot, point).tick_decision(now)),
        Call::Tick(now) => Some(state.tick_decision(now)),
        Call::TouchUp(slot) => Some(state.touch_up_decision(slot)),
        Call::Reset => None,
    }
}

/// The decisions on `calls`, one after the other.
pub open spec fn decisions(state: RecognizerState, calls: Seq<Call>) -> Seq<Option<Decision>>
    decreases calls.len(),
{
    if calls.len() == 0 {
        Seq::empty()
    } else {
        seq![call_decision(state, calls[0])] + decisions(
            after_call(state, calls[0]),
            calls.skip(1),
        )
    }
}

/// Scaling the same length at the same resolution always gives the same.
pub open spec fn is_function<F: Fn(&String, i32) -> i64>(scale: F) -> bool {
    forall|text: &String, units: i32, a: i64, b: i64| #[trigger]
        scale.ensures((text, units), a) && #[trigger] scale.ensures((text, units), b) ==> a == b
}

/// A touchpad whose resolution is zero or less is treated as one of one unit per millimetre: the
/// same settings can be scaled, and a recognizer can start in the same states. This holds of any
/// way of scaling.
pub proof fn law_unknown_resolution_counts_as_one<F: Fn(&String, i32) -> i64>(
    resolution: i32,
    config: Config,
    scale: F,
    thresholds: Thresholds,
    state: RecognizerState,
)
    requires
        resolution <= 0,
    ensures
        config.scalable(resolution, scale) <==> config.scalable(1, scale),
        config.scales_to(resolution, scale, thresholds) <==> config.scales_to(1, scale, thresholds),
        state.starts(resolution, config, scale) <==> state.starts(1, config, scale),
{
    if state.starts(resolution, config, scale) {
        let t = choose|t: Thresholds| #[trigger]
            config.scales_to(resolution, scale, t) && state == RecognizerState::fresh(t);
        assert(config.scales_to(1, scale, t));
    }
    if state.starts(1, config, scale) {
        let t = choose|t: Thresholds| #[trigger]
            config.scales_to(1, scale, t) && state == RecognizerState::fresh(t);
        assert(config.scales_to(resolution, scale, t));
    }
}

/// Settings and resolution fix the state in which a recognizer starts.
pub proof fn law_settings_fix_the_start<F: Fn(&String, i32) -> i64>(
    resolution: i32,
    config: Config,
    scale: F,
    first: RecognizerState,
    second: RecognizerState,
)
    requires
        is_function(scale),
        first.starts(resolution, config, scale),
        second.starts(resolution, config, scale),
    ensures
        first == second,
{
}

/// A recognizer for a touchpad whose resolution is zero or less starts as one for a resolution of
/// one, and answers every later sequence of calls as that one does.
pub proof fn law_unknown_resolution_decides_as_one<F: Fn(&String, i32) -> i64>(
    resolution: i32,
    config: Config,
    scale: F,
    unknown: RecognizerState,
    one: RecognizerState,
    calls: Seq<Call>,
)
    requires
        resolution <= 0,
        is_function(scale),
        unknown.starts(resolution, config, scale),
        one.starts(1, config, scale),
    ensures
        unknown == one,
        decisions(unknown, calls) == decisions(one, calls),
{
    let thresholds = choose|t: Thresholds| #[trigger]
        config.scales_to(resolution, scale, t) && unknown == RecognizerState::fresh(t);
    law_unknown_resolution_counts_as_one(resolution, config, scale, thresholds, unknown);
    law_settings_fix_the_start(1, config, scale, unknown, one);
}

} // verus!
