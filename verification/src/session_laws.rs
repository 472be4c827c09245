//! What each input does to the filter, over the event's own numbers and the parts of the state.

use vstd::prelude::*;

use crate::event::Event;
use crate::frame;
use crate::frame_laws;
use crate::order;
use crate::recognizer::{Nanos, Point, Thresholds};
use crate::session;
use crate::session::{Action, Input, Output, SessionState};
use crate::stream_laws;

verus! {

/// Positions are looked at in order: each contact of a slot in `seen` with a position on record is
/// moved there, and the hidden one is shown as soon as it is far away or late.
proof fn lemma_located_all(state: SessionState, seen: Seq<u16>, now: Nanos)
    requires
        state.valid(),
    ensures
        ({
            let after = state.located_all(seen, now);
            let old = state.recognizer;
            let new = after.recognizer;
            &&& after.slots == state.slots
            &&& after.current_slot == state.current_slot
            &&& new.min_primary_age == old.min_primary_age
            &&& new.primary_move_squared == old.primary_move_squared
            &&& new.tap_timeout == old.tap_timeout
            &&& new.scroll_move_squared == old.scroll_move_squared
            &&& new.contacts.dom() == old.contacts.dom()
            &&& forall|slot: u16| #[trigger]
                old.contacts.contains_key(slot) ==> new.contacts[slot] == if seen.contains(slot)
                    && state.has_position(slot) {
                    old.contacts[slot].moved_to(state.position(slot))
                } else {
                    old.contacts[slot]
                }
            &&& old.pending is None ==> new.pending is None && after.frame == state.frame
            &&& old.pending matches Some((hidden, since)) ==> {
                let late = now - since >= old.tap_timeout || old.tap_timeout == 0;
                let far = new.contacts[hidden].distance_squared() >= old.scroll_move_squared;
                let was_far = old.contacts[hidden].distance_squared() >= old.scroll_move_squared;
                let looked = exists|slot: u16| #[trigger]
                    seen.contains(slot) && state.has_position(slot);
                &&& new.pending == old.pending || new.pending is None
                &&& new.pending is Some ==> after.frame == state.frame
                &&& new.pending is None ==> after.frame == frame::restored(
                    state.frame,
                    state.slots,
                    hidden,
                )
                &&& looked && late ==> new.pending is None
                &&& seen.contains(hidden) && state.has_position(hidden) && far
                    ==> new.pending is None
                &&& new.pending is None ==> looked && (late || far || was_far)
            }
        }),
    decreases seen.len(),
{
    if seen.len() > 0 {
        let rest = seen.drop_last();
        let slot = seen.last();
        lemma_located_all(state, rest, now);
        session::lemma_located_all_valid(state, rest, now);
        let before = state.located_all(rest, now);
        let after = state.located_all(seen, now);
        assert(after == before.located(slot, now));
        assert forall|s: u16| #[trigger] seen.contains(s) <==> rest.contains(s) || s == slot by {
            if seen.contains(s) {
                let i = choose|i: int| 0 <= i < seen.len() && seen[i] == s;
                if i < rest.len() {
                    assert(rest[i] == s);
                }
            }
            if rest.contains(s) {
                let i = choose|i: int| 0 <= i < rest.len() && rest[i] == s;
                assert(seen[i] == s);
            }
            if s == slot {
                assert(seen[seen.len() - 1] == s);
            }
        }
        assert(before.has_position(slot) == state.has_position(slot));
        assert(after.recognizer.contacts.dom() =~= state.recognizer.contacts.dom());
        if let Some((hidden, since)) = state.recognizer.pending {
            assert(state.recognizer.contacts.contains_key(hidden));
            let now_looked = exists|s: u16| #[trigger] seen.contains(s) && state.has_position(s);
            let looked = exists|s: u16| #[trigger] rest.contains(s) && state.has_position(s);
            if looked {
                let s = choose|s: u16| #[trigger] rest.contains(s) && state.has_position(s);
                assert(seen.contains(s));
            }
            if state.has_position(slot) {
                assert(seen.contains(slot));
            }
            if now_looked && !state.has_position(slot) {
                let s = choose|s: u16| #[trigger] seen.contains(s) && state.has_position(s);
                assert(rest.contains(s));
            }
        }
    }
}

/// An attribute that the touchpad sets is on record for the selected slot, whichever of the
/// fourteen it is and whether or not the slot is hidden; all other codes and slots stay as they
/// are. When all fingers have left, nothing is on record. No other event changes the record.
pub proof fn law_attributes_are_on_record(state: SessionState, event: Event, now: Nanos)
    requires
        state.valid(),
    ensures
        ({
            let after = state.next(event, now);
            let slot = state.current_slot;
            if event.kind == 3 && 0x30 <= event.code && event.code <= 0x3d {
                &&& after.slots.dom() == state.slots.dom().insert(slot)
                &&& after.slots[slot].contains_key(event.code)
                &&& after.slots[slot][event.code] == event.value
                &&& forall|code: u16|
                    code != event.code ==> (#[trigger] after.slots[slot].contains_key(code) <==> (
                    state.slots.contains_key(slot) && state.slots[slot].contains_key(code)))
                &&& forall|code: u16|
                    code != event.code && #[trigger] after.slots[slot].contains_key(code)
                        ==> after.slots[slot][code] == state.slots[slot][code]
                &&& forall|other: u16|
                    other != slot ==> #[trigger] after.slots[other] == state.slots[other]
            } else if event.kind == 1 && event.code == 0x14a && event.value == 0 {
                after.slots.dom() == Set::<u16>::empty()
            } else {
                after.slots == state.slots
            }
        }),
{
    lemma_located_all(state, order::ascending(state.slots.dom()), now);
}

/// The selected slot is the one that the touchpad selected last, as a number of sixteen bits; no
/// other event changes it.
pub proof fn law_selection_of_a_slot(state: SessionState, event: Event, now: Nanos)
    requires
        state.valid(),
    ensures
        event.kind == 3 && event.code == 0x2f ==> state.next(event, now).current_slot
            == event.value as int % 0x1_0000,
        !(event.kind == 3 && event.code == 0x2f) ==> state.next(event, now).current_slot
            == state.current_slot,
{
    lemma_located_all(state, order::ascending(state.slots.dom()), now);
    let value = event.value;
    assert(value as u16 as int == value as int % 0x1_0000) by (bit_vector);
}

/// The recognizer hears of every contact that begins or ends in the selected slot, forgets all
/// when no finger is left, and hears of nothing else before the end of the report.
pub proof fn law_recognizer_follows_the_contacts(state: SessionState, event: Event, now: Nanos)
    requires
        !(event.kind == 0 && event.code == 0),
    ensures
        state.next(event, now).recognizer == if event.kind == 3 && event.code == 0x39 && event.value
            >= 0 {
            state.recognizer.touch_down(state.current_slot, now)
        } else if event.kind == 3 && event.code == 0x39 {
            state.recognizer.touch_up(state.current_slot)
        } else if event.kind == 1 && event.code == 0x14a && event.value == 0 {
            state.recognizer.reset()
        } else {
            state.recognizer
        },
{
}

/// Every event is queued, as the last one, unless it ends the report, counts fingers, or is about
/// a slot that is hidden or has just clicked. What was queued stays in front.
pub proof fn law_event_is_queued_last(state: SessionState, event: Event, now: Nanos)
    requires
        state.valid(),
        !(event.kind == 0 && event.code == 0),
        !(event.kind == 1 && (event.code == 0x145 || event.code == 0x148 || event.code == 0x14d
            || event.code == 0x14e || event.code == 0x14f)),
        event.kind == 3 ==> {
            let after = state.next(event, now);
            &&& !(after.recognizer.pending matches Some(p) && p.0 == after.current_slot)
            &&& !(event.code == 0x39 && event.value < 0 && (
            state.recognizer.pending matches Some(p) && p.0 == state.current_slot))
        },
    ensures
        state.next(event, now).frame.len() > state.frame.len(),
        state.next(event, now).frame.last() == event,
        forall|i: int|
            0 <= i < state.frame.len() ==> #[trigger] state.next(event, now).frame[i]
                == state.frame[i],
{
    law_queue_after_an_event(state, event, now);
    let recorded = state.next(event, now).slots;
    if let Some((hidden, since)) = state.recognizer.pending {
        lemma_restored_prefix(state.frame, recorded, hidden);
    }
    frame_laws::law_lifted_contacts_event_by_event(
        state.frame,
        frame::active_slots(state.slots),
    );
}

/// Queuing leaves what is queued in front.
proof fn lemma_queued_prefix(queue: Seq<Event>, slot: u16, events: Seq<Event>)
    ensures
        frame::queued_all(queue, slot, events).len() >= queue.len(),
        forall|i: int|
            0 <= i < queue.len() ==> #[trigger] frame::queued_all(queue, slot, events)[i]
                == queue[i],
    decreases events.len(),
{
    if events.len() > 0 {
        lemma_queued_prefix(queue, slot, events.drop_last());
    }
}

/// Showing a contact leaves what is queued in front.
proof fn lemma_restored_prefix(queue: Seq<Event>, slots: Map<u16, Map<u16, i32>>, slot: u16)
    ensures
        frame::restored(queue, slots, slot).len() >= queue.len(),
        forall|i: int|
            0 <= i < queue.len() ==> #[trigger] frame::restored(queue, slots, slot)[i] == queue[i],
{
    lemma_queued_prefix(queue, slot, frame::contact_events(slots[slot]));
}

/// The queue after any event but the end of a report. The hidden contact is shown first if a
/// finger lands, or if one other than the hidden one leaves; all contacts are lifted first if no
/// finger is left. Then comes the event, after the selection of its slot if it is an attribute,
/// but not if it counts fingers or is about a hidden slot. A click leaves nothing queued.
pub proof fn law_queue_after_an_event(state: SessionState, event: Event, now: Nanos)
    requires
        !(event.kind == 0 && event.code == 0),
    ensures
        ({
            let after = state.next(event, now);
            let tracks = event.kind == 3 && event.code == 0x39;
            let clicks = tracks && event.value < 0 && (state.recognizer.pending matches Some(p)
                && p.0 == state.current_slot);
            let hidden = event.kind == 3 && (after.recognizer.pending matches Some(p) && p.0
                == after.current_slot);
            let counts = event.kind == 1 && (event.code == 0x145 || event.code == 0x148
                || event.code == 0x14d || event.code == 0x14e || event.code == 0x14f);
            let base = if event.kind == 1 && event.code == 0x14a && event.value == 0 {
                frame::lifted(state.frame, frame::active_slots(state.slots))
            } else {
                match state.recognizer.pending {
                    Some((slot, _)) => if tracks && !clicks {
                        frame::restored(state.frame, after.slots, slot)
                    } else {
                        state.frame
                    },
                    None => state.frame,
                }
            };
            if clicks {
                after.frame == Seq::<Event>::empty()
            } else if hidden || counts {
                after.frame == base
            } else if event.kind == 3 && 0x30 <= event.code && event.code <= 0x3d {
                after.frame == base.push(
                    (Event {
                        seconds: 0,
                        micros: 0,
                        kind: 3,
                        code: 0x2f,
                        value: state.current_slot as i32,
                    }),
                ).push(event)
            } else {
                after.frame == base.push(event)
            }
        }),
{
}

/// The word that no finger is left is passed on, whether or not a contact was still on record:
/// all of them are lifted and forgotten first.
pub proof fn law_word_that_all_left_is_passed_on(state: SessionState, event: Event, now: Nanos)
    requires
        state.valid(),
        event.kind == 1,
        event.code == 0x14a,
        event.value == 0,
    ensures
        state.next(event, now).frame == frame::lifted(
            state.frame,
            frame::active_slots(state.slots),
        ).push(event),
        state.next(event, now).frame.len() == state.frame.len() + 2
            * state.recognizer.contacts.len() + 1,
        state.next(event, now).frame.last() == event,
        state.next(event, now).recognizer.contacts.dom() == Set::<u16>::empty(),
        state.next(event, now).recognizer.pending is None,
        state.next(event, now).slots.dom() == Set::<u16>::empty(),
        state.next(event, now).current_slot == state.current_slot,
        state.recognizer.contacts.len() == 0 ==> state.reaction(event, now).len() == 0,
        state.recognizer.contacts.len() > 0 ==> state.reaction(event, now) == seq![
            Output::Resynchronized(state.recognizer.contacts.len()),
        ],
{
    stream_laws::law_all_fingers_left_resynchronizes(state, event, now, 0);
    frame_laws::law_lifted_contacts_event_by_event(
        state.frame,
        frame::active_slots(state.slots),
    );
    frame_laws::law_active_slots_are_those_with_a_finger(state.slots);
    let active = frame::active_slots(state.slots);
    assert(active.no_duplicates());
    active.unique_seq_to_set();
    assert forall|slot: u16| active.to_set().contains(slot)
        <==> state.recognizer.contacts.dom().contains(slot) by {
        assert(active.contains(slot) <==> state.recognizer.contacts.contains_key(slot));
    }
    assert(active.to_set() =~= state.recognizer.contacts.dom());
}

/// Nothing is done at once but for three events: the end of a report, the end of a tap, and the
/// word that no finger is left.
pub proof fn law_other_events_wait_for_the_report(state: SessionState, event: Event, now: Nanos)
    requires
        !(event.kind == 0 && event.code == 0),
        !(event.kind == 1 && event.code == 0x14a && event.value == 0),
        !(event.kind == 3 && event.code == 0x39 && event.value < 0 && (
        state.recognizer.pending matches Some(p) && p.0 == state.current_slot)),
    ensures
        state.reaction(event, now).len() == 0,
{
}

/// A report is the queue followed by the five finger-count keys. Exactly the key for the number
/// of fingers that are down and not hidden is set, counted from the contacts.
pub proof fn law_report_counts_the_contacts(state: SessionState, count: int)
    requires
        state.recognizer.pending is None ==> count == state.recognizer.contacts.len(),
        state.recognizer.pending is Some ==> count == state.recognizer.contacts.len() - 1,
    ensures
        state.report() == Output::Emit(
            state.frame + seq![
                (Event {
                    seconds: 0,
                    micros: 0,
                    kind: 1,
                    code: 0x145,
                    value: if count == 1 {
                        1
                    } else {
                        0
                    },
                }),
                (Event {
                    seconds: 0,
                    micros: 0,
                    kind: 1,
                    code: 0x14d,
                    value: if count == 2 {
                        1
                    } else {
                        0
                    },
                }),
                (Event {
                    seconds: 0,
                    micros: 0,
                    kind: 1,
                    code: 0x14e,
                    value: if count == 3 {
                        1
                    } else {
                        0
                    },
                }),
                (Event {
                    seconds: 0,
                    micros: 0,
                    kind: 1,
                    code: 0x14f,
                    value: if count == 4 {
                        1
                    } else {
                        0
                    },
                }),
                (Event {
                    seconds: 0,
                    micros: 0,
                    kind: 1,
                    code: 0x148,
                    value: if count >= 5 {
                        1
                    } else {
                        0
                    },
                }),
            ],
        ),
{
    frame_laws::law_finger_count_keys(count);
}

/// A tap gives three reports: the queue with the count of the finger that stays, the press of the
/// left button, and its release.
pub proof fn law_tap_presses_and_releases(state: SessionState, event: Event, now: Nanos)
    requires
        state.valid(),
        event.kind == 3,
        event.code == 0x39,
        event.value < 0,
        state.recognizer.pending matches Some(p) && p.0 == state.current_slot,
    ensures
        state.reaction(event, now).len() == 3,
        state.reaction(event, now)[0] == Output::Emit(
            state.frame + seq![
                (Event { seconds: 0, micros: 0, kind: 1, code: 0x145, value: 1 }),
                (Event { seconds: 0, micros: 0, kind: 1, code: 0x14d, value: 0 }),
                (Event { seconds: 0, micros: 0, kind: 1, code: 0x14e, value: 0 }),
                (Event { seconds: 0, micros: 0, kind: 1, code: 0x14f, value: 0 }),
                (Event { seconds: 0, micros: 0, kind: 1, code: 0x148, value: 0 }),
            ],
        ),
        state.reaction(event, now)[1] == Output::Emit(
            seq![(Event { seconds: 0, micros: 0, kind: 1, code: 0x110, value: 1 })],
        ),
        state.reaction(event, now)[2] == Output::Emit(
            seq![(Event { seconds: 0, micros: 0, kind: 1, code: 0x110, value: 0 })],
        ),
        state.next(event, now).frame.len() == 0,
{
    let after = state.processed(event, now);
    assert(after.recognizer.contacts.dom() == state.recognizer.contacts.dom().remove(
        state.current_slot,
    ));
    assert(after.recognizer.contacts.len() == 1);
    assert(after.frame == state.frame);
    law_report_counts_the_contacts(after, 1);
}

/// At the end of a report each finger with both coordinates on record is where they say, and its
/// first position is kept once it has one; a finger without both is as before. Fingers neither
/// come nor go, and the record, the selected slot and the thresholds are as before.
pub proof fn law_report_moves_the_fingers(
    state: SessionState,
    event: Event,
    now: Nanos,
    slot: u16,
)
    requires
        state.valid(),
        event.kind == 0,
        event.code == 0,
        state.recognizer.contacts.contains_key(slot),
    ensures
        ({
            let after = state.next(event, now);
            let old = state.recognizer.contacts[slot];
            let new = after.recognizer.contacts[slot];
            &&& after.slots == state.slots
            &&& after.current_slot == state.current_slot
            &&& after.frame.len() == 0
            &&& after.recognizer.min_primary_age == state.recognizer.min_primary_age
            &&& after.recognizer.primary_move_squared == state.recognizer.primary_move_squared
            &&& after.recognizer.tap_timeout == state.recognizer.tap_timeout
            &&& after.recognizer.scroll_move_squared == state.recognizer.scroll_move_squared
            &&& after.recognizer.contacts.dom() == state.recognizer.contacts.dom()
            &&& new.started == old.started
            &&& if state.slots.contains_key(slot) && state.slots[slot].contains_key(0x35)
                && state.slots[slot].contains_key(0x36) {
                let point = Point { x: state.slots[slot][0x35], y: state.slots[slot][0x36] };
                &&& new.current == Some(point)
                &&& old.origin is None ==> new.origin == Some(point)
                &&& old.origin is Some ==> new.origin == old.origin
            } else {
                new == old
            }
        }),
{
    let slots = order::ascending(state.slots.dom());
    lemma_located_all(state, slots, now);
    order::lemma_ascending(state.slots.dom());
    if state.has_position(slot) {
        assert(slots.contains(slot));
    }
}

/// The end of a report gives one report. A hidden finger that is by then as far from its first
/// position as the scroll threshold, or down for the tap timeout, is shown in it; one that is
/// neither, and was not far before, stays hidden.
pub proof fn law_report_judges_the_hidden_finger(
    state: SessionState,
    event: Event,
    now: Nanos,
    slot: u16,
    since: Nanos,
)
    requires
        state.valid(),
        event.kind == 0,
        event.code == 0,
        state.recognizer.pending == Some((slot, since)),
        state.slots[slot].contains_key(0x35),
        state.slots[slot].contains_key(0x36),
    ensures
        ({
            let after = state.next(event, now);
            let x = state.slots[slot][0x35] as int;
            let y = state.slots[slot][0x36] as int;
            let old = state.recognizer.contacts[slot];
            let far = match old.origin {
                Some(a) => (x - a.x) * (x - a.x) + (y - a.y) * (y - a.y)
                    >= state.recognizer.scroll_move_squared,
                None => 0 >= state.recognizer.scroll_move_squared,
            };
            let was_far = match (old.origin, old.current) {
                (Some(a), Some(b)) => (b.x - a.x) * (b.x - a.x) + (b.y - a.y) * (b.y - a.y)
                    >= state.recognizer.scroll_move_squared,
                _ => 0 >= state.recognizer.scroll_move_squared,
            };
            let late = now - since >= state.recognizer.tap_timeout || state.recognizer.tap_timeout
                == 0;
            &&& far || late ==> after.recognizer.pending is None
            &&& !far && !late && !was_far ==> after.recognizer.pending == Some((slot, since))
            &&& after.recognizer.pending is None || after.recognizer.pending == Some((slot, since))
        }),
{
    let slots = order::ascending(state.slots.dom());
    lemma_located_all(state, slots, now);
    order::lemma_ascending(state.slots.dom());
    assert(state.recognizer.contacts.contains_key(slot));
    assert(frame::finger_down(state.slots, slot));
    assert(state.has_position(slot));
    assert(slots.contains(slot));
    let old = state.recognizer.contacts[slot];
    let moved = state.next(event, now).recognizer.contacts[slot];
    assert(moved == old.moved_to(state.position(slot)));
    let x = state.slots[slot][0x35] as int;
    let y = state.slots[slot][0x36] as int;
    match old.origin {
        Some(a) => {
            assert(moved.distance_squared() == (x - a.x) * (x - a.x) + (y - a.y) * (y - a.y));
        },
        None => {
            let p = state.position(slot);
            assert(moved.origin == Some(p) && moved.current == Some(p));
            assert((p.x - p.x) * (p.x - p.x) + (p.y - p.y) * (p.y - p.y) == 0) by (nonlinear_arith);
        },
    }
}

/// Any position on record makes the end of a report look at the time: a hidden finger that is down
/// for the tap timeout is shown, whether or not its own position is known.
pub proof fn law_report_ends_a_hold(
    state: SessionState,
    event: Event,
    now: Nanos,
    slot: u16,
    since: Nanos,
    other: u16,
)
    requires
        state.valid(),
        event.kind == 0,
        event.code == 0,
        state.recognizer.pending == Some((slot, since)),
        state.slots.contains_key(other),
        state.slots[other].contains_key(0x35),
        state.slots[other].contains_key(0x36),
        now - since >= state.recognizer.tap_timeout,
    ensures
        state.next(event, now).recognizer.pending is None,
{
    let slots = order::ascending(state.slots.dom());
    lemma_located_all(state, slots, now);
    order::lemma_ascending(state.slots.dom());
    assert(slots.contains(other) && state.has_position(other));
}

/// Without a complete position on record the end of a report leaves all fingers as they are, and
/// the hidden one hidden.
pub proof fn law_report_without_positions(state: SessionState, event: Event, now: Nanos)
    requires
        state.valid(),
        event.kind == 0,
        event.code == 0,
        forall|slot: u16| #[trigger]
            state.slots.contains_key(slot) ==> !state.slots[slot].contains_key(0x35)
                || !state.slots[slot].contains_key(0x36),
    ensures
        state.next(event, now).recognizer == state.recognizer,
{
    let after = state.next(event, now).recognizer;
    lemma_located_all(state, order::ascending(state.slots.dom()), now);
    assert(forall|slot: u16| state.has_position(slot) ==> state.slots.contains_key(slot));
    assert(forall|slot: u16| !state.has_position(slot));
    assert(after.contacts =~= state.recognizer.contacts);
    assert(after.pending == state.recognizer.pending);
}

/// The end of a report hands out the queue with the finger-count keys: with all that is on record
/// of the hidden contact if it is shown, and as it is otherwise. A report without a hidden contact
/// hides none.
pub proof fn law_report_hands_out_the_queue(
    state: SessionState,
    event: Event,
    now: Nanos,
    count: int,
)
    requires
        state.valid(),
        event.kind == 0,
        event.code == 0,
        state.next(event, now).recognizer.pending is None ==> count
            == state.recognizer.contacts.len(),
        state.next(event, now).recognizer.pending is Some ==> count
            == state.recognizer.contacts.len() - 1,
    ensures
        state.recognizer.pending is None ==> state.next(event, now).recognizer.pending is None,
        state.reaction(event, now) == seq![
            Output::Emit(
                match state.recognizer.pending {
                    Some((slot, _)) => if state.next(event, now).recognizer.pending is None {
                        frame::restored(state.frame, state.slots, slot)
                    } else {
                        state.frame
                    },
                    None => state.frame,
                } + seq![
                    (Event {
                        seconds: 0,
                        micros: 0,
                        kind: 1,
                        code: 0x145,
                        value: if count == 1 {
                            1
                        } else {
                            0
                        },
                    }),
                    (Event {
                        seconds: 0,
                        micros: 0,
                        kind: 1,
                        code: 0x14d,
                        value: if count == 2 {
                            1
                        } else {
                            0
                        },
                    }),
                    (Event {
                        seconds: 0,
                        micros: 0,
                        kind: 1,
                        code: 0x14e,
                        value: if count == 3 {
                            1
                        } else {
                            0
                        },
                    }),
                    (Event {
                        seconds: 0,
                        micros: 0,
                        kind: 1,
                        code: 0x14f,
                        value: if count == 4 {
                            1
                        } else {
                            0
                        },
                    }),
                    (Event {
                        seconds: 0,
                        micros: 0,
                        kind: 1,
                        code: 0x148,
                        value: if count >= 5 {
                            1
                        } else {
                            0
                        },
                    }),
                ],
            ),
        ],
{
    lemma_located_all(state, order::ascending(state.slots.dom()), now);
    law_report_counts_the_contacts(state.settled(now), count);
}

/// Silence shows the hidden finger, in a report of two fingers, once it is as far from its first
/// position as the scroll threshold or down for the tap timeout; else, and without a hidden
/// finger, silence does nothing at all.
pub proof fn law_silence(state: SessionState, now: Nanos)
    requires
        state.valid(),
    ensures
        match state.recognizer.pending {
            None => state.idle(now) == state && state.idle_reaction(now).len() == 0,
            Some((slot, since)) => {
                let contact = state.recognizer.contacts[slot];
                let far = match (contact.origin, contact.current) {
                    (Some(a), Some(b)) => (b.x - a.x) * (b.x - a.x) + (b.y - a.y) * (b.y - a.y)
                        >= state.recognizer.scroll_move_squared,
                    _ => 0 >= state.recognizer.scroll_move_squared,
                };
                let late = now - since >= state.recognizer.tap_timeout
                    || state.recognizer.tap_timeout == 0;
                if far || late {
                    &&& state.idle(now).recognizer.pending is None
                    &&& state.idle(now).recognizer.contacts == state.recognizer.contacts
                    &&& state.idle(now).recognizer.tap_timeout == state.recognizer.tap_timeout
                    &&& state.idle(now).recognizer.min_primary_age
                        == state.recognizer.min_primary_age
                    &&& state.idle(now).recognizer.scroll_move_squared
                        == state.recognizer.scroll_move_squared
                    &&& state.idle(now).recognizer.primary_move_squared
                        == state.recognizer.primary_move_squared
                    &&& state.idle(now).slots == state.slots
                    &&& state.idle(now).current_slot == state.current_slot
                    &&& state.idle(now).frame.len() == 0
                    &&& state.idle_reaction(now) == seq![
                        Output::Emit(
                            frame::restored(state.frame, state.slots, slot) + seq![
                                (Event { seconds: 0, micros: 0, kind: 1, code: 0x145, value: 0 }),
                                (Event { seconds: 0, micros: 0, kind: 1, code: 0x14d, value: 1 }),
                                (Event { seconds: 0, micros: 0, kind: 1, code: 0x14e, value: 0 }),
                                (Event { seconds: 0, micros: 0, kind: 1, code: 0x14f, value: 0 }),
                                (Event { seconds: 0, micros: 0, kind: 1, code: 0x148, value: 0 }),
                            ],
                        ),
                    ]
                } else {
                    state.idle(now) == state && state.idle_reaction(now).len() == 0
                }
            },
        },
{
    if let Some((slot, since)) = state.recognizer.pending {
        let ticked = SessionState { recognizer: state.recognizer.tick(now), ..state };
        let shown = ticked.shown(state.recognizer.tick_decision(now));
        if state.recognizer.tap_ruled_out(now) {
            law_report_counts_the_contacts(shown, 2);
        }
    }
}

/// A filter starts with no finger, nothing on record, nothing queued and the first slot selected,
/// with the times as they are given and the squares of the lengths.
pub proof fn law_filter_starts_empty(thresholds: Thresholds)
    ensures
        ({
            let state = SessionState::fresh(thresholds);
            &&& state.recognizer.contacts.dom() == Set::<u16>::empty()
            &&& state.recognizer.pending is None
            &&& state.recognizer.min_primary_age == thresholds.min_primary_age
            &&& state.recognizer.tap_timeout == thresholds.tap_timeout
            &&& state.recognizer.primary_move_squared == thresholds.primary_move_units
                * thresholds.primary_move_units
            &&& state.recognizer.scroll_move_squared == thresholds.scroll_move_units
                * thresholds.scroll_move_units
            &&& state.slots.dom() == Set::<u16>::empty()
            &&& state.current_slot == 0
            &&& state.frame.len() == 0
        }),
{
}

/// A wait brings in every event, in its order and at the moment it ended, or one silence.
pub proof fn law_wait_brings_in_every_event(events: Seq<Event>, now: Nanos)
    ensures
        events.len() == 0 ==> session::polled(events, now) == seq![Input::Silence(now)],
        events.len() > 0 ==> session::polled(events, now).len() == events.len(),
        forall|i: int|
            0 <= i < events.len() ==> #[trigger] session::polled(events, now)[i] == Input::Event(
                events[i],
                now,
            ),
{
}

/// Inputs take effect one by one: no input changes nothing, and one more does what it does in the
/// state that the others lead to.
pub proof fn law_inputs_take_effect_one_by_one(
    state: SessionState,
    inputs: Seq<Input>,
    event: Event,
    now: Nanos,
)
    ensures
        state.run(Seq::empty()) == state,
        state.run_outputs(Seq::empty()).len() == 0,
        state.run(inputs.push(Input::Event(event, now))) == state.run(inputs).next(event, now),
        state.run(inputs.push(Input::Silence(now))) == state.run(inputs).idle(now),
        state.run_outputs(inputs.push(Input::Event(event, now))) == state.run_outputs(inputs)
            + state.run(inputs).reaction(event, now),
        state.run_outputs(inputs.push(Input::Silence(now))) == state.run_outputs(inputs)
            + state.run(inputs).idle_reaction(now),
{
    assert(inputs.push(Input::Event(event, now)).drop_last() =~= inputs);
    assert(inputs.push(Input::Silence(now)).drop_last() =~= inputs);
}

/// Actions ask for what they hold, in their order.
pub proof fn law_actions_ask_for_what_they_hold(actions: Seq<Action>)
    ensures
        session::outputs(actions).len() == actions.len(),
        forall|i: int|
            0 <= i < actions.len() ==> #[trigger] session::outputs(actions)[i] == match actions[i] {
                Action::Emit(events) => Output::Emit(events@),
                Action::Resynchronized(count) => Output::Resynchronized(count as nat),
            },
{
}

/// The value that was last sent for a code of a slot is on record: after the touchpad selected
/// the slot and sent the value, and as long as it neither sends another for that code and slot
/// nor says that no finger is left.
pub proof fn law_last_value_sent_is_on_record(
    state: SessionState,
    inputs: Seq<Input>,
    selection: int,
    sending: int,
    slot: u16,
    code: u16,
    value: i32,
)
    requires
        state.valid(),
        0 <= selection < sending < inputs.len(),
        inputs[selection] matches Input::Event(e, _) && e.kind == 3 && e.code == 0x2f && e.value
            == slot,
        forall|i: int|
            selection < i < sending ==> !(#[trigger] inputs[i] matches Input::Event(e, _) && e.kind
                == 3 && e.code == 0x2f),
        inputs[sending] matches Input::Event(e, _) && e.kind == 3 && e.code == code && e.value
            == value,
        0x30 <= code <= 0x3d,
        forall|i: int|
            sending < i < inputs.len() ==> !(#[trigger] inputs[i] matches Input::Event(e, _) && (
            (e.kind == 1 && e.code == 0x14a && e.value == 0) || (e.kind == 3 && e.code == code
                && state.run(inputs.take(i)).current_slot == slot))),
    ensures
        state.run(inputs).slots.contains_key(slot),
        state.run(inputs).slots[slot].contains_key(code),
        state.run(inputs).slots[slot][code] == value,
    decreases inputs.len(),
{
    let rest = inputs.drop_last();
    let before = state.run(rest);
    stream_laws::lemma_run_valid(state, rest);
    if sending == rest.len() {
        lemma_selected(state, rest, selection, slot);
        match inputs.last() {
            Input::Event(e, now) => {
                law_attributes_are_on_record(before, e, now);
            },
            _ => {},
        }
    } else {
        assert forall|i: int| sending < i < rest.len() implies !(
        #[trigger] rest[i] matches Input::Event(e, _) && ((e.kind == 1 && e.code == 0x14a && e.value
            == 0) || (e.kind == 3 && e.code == code && state.run(rest.take(i)).current_slot
            == slot))) by {
            assert(rest[i] == inputs[i]);
            assert(rest.take(i) =~= inputs.take(i));
        }
        assert forall|i: int| selection < i < sending implies !(
        #[trigger] rest[i] matches Input::Event(e, _) && e.kind == 3 && e.code == 0x2f) by {
            assert(rest[i] == inputs[i]);
        }
        law_last_value_sent_is_on_record(state, rest, selection, sending, slot, code, value);
        assert(inputs.take(inputs.len() - 1) =~= rest);
        assert(inputs[inputs.len() - 1] == inputs.last());
        match inputs.last() {
            Input::Event(e, now) => {
                law_attributes_are_on_record(before, e, now);
                let after = before.next(e, now);
                if e.kind == 3 && 0x30 <= e.code && e.code <= 0x3d {
                    if before.current_slot == slot {
                        assert(after.slots[slot].contains_key(code));
                    } else {
                        assert(after.slots[slot] == before.slots[slot]);
                    }
                }
            },
            Input::Silence(now) => {
                law_silence(before, now);
            },
        }
    }
}

/// A slot stays selected until another is.
proof fn lemma_selected(state: SessionState, inputs: Seq<Input>, selection: int, slot: u16)
    requires
        state.valid(),
        0 <= selection < inputs.len(),
        inputs[selection] matches Input::Event(e, _) && e.kind == 3 && e.code == 0x2f && e.value
            == slot,
        forall|i: int|
            selection < i < inputs.len() ==> !(#[trigger] inputs[i] matches Input::Event(e, _)
                && e.kind == 3 && e.code == 0x2f),
    ensures
        state.run(inputs).current_slot == slot,
    decreases inputs.len(),
{
    let rest = inputs.drop_last();
    let before = state.run(rest);
    stream_laws::lemma_run_valid(state, rest);
    assert(inputs[inputs.len() - 1] == inputs.last());
    if selection < rest.len() {
        assert forall|i: int| selection < i < rest.len() implies !(
        #[trigger] rest[i] matches Input::Event(e, _) && e.kind == 3 && e.code == 0x2f) by {
            assert(rest[i] == inputs[i]);
        }
        lemma_selected(state, rest, selection, slot);
    }
    match inputs.last() {
        Input::Event(e, now) => {
            law_selection_of_a_slot(before, e, now);
        },
        Input::Silence(now) => {
            law_silence(before, now);
        },
    }
}

/// A hidden contact that is shown again is shown with what the touchpad sent of it: for every
/// attribute that it sent for the slot, the events of the input that shows the contact, or those
/// queued by it, hold the last value sent, right after the selection of the slot.
pub proof fn law_restored_contact_has_the_last_values_sent(
    state: SessionState,
    inputs: Seq<Input>,
    selection: int,
    sending: int,
    slot: u16,
    code: u16,
    value: i32,
    now: Nanos,
)
    requires
        state.valid(),
        0 <= selection < sending < inputs.len(),
        inputs[selection] matches Input::Event(e, _) && e.kind == 3 && e.code == 0x2f && e.value
            == slot,
        forall|i: int|
            selection < i < sending ==> !(#[trigger] inputs[i] matches Input::Event(e, _) && e.kind
                == 3 && e.code == 0x2f),
        inputs[sending] matches Input::Event(e, _) && e.kind == 3 && e.code == code && e.value
            == value,
        0x30 <= code <= 0x3d,
        forall|i: int|
            sending < i < inputs.len() ==> !(#[trigger] inputs[i] matches Input::Event(e, _) && (
            (e.kind == 1 && e.code == 0x14a && e.value == 0) || (e.kind == 3 && e.code == code
                && state.run(inputs.take(i)).current_slot == slot))),
        state.run(inputs).recognizer.pending matches Some(p) && p.0 == slot,
    ensures
        ({
            let held = state.run(inputs);
            let select = Event { seconds: 0, micros: 0, kind: 3, code: 0x2f, value: slot as i32 };
            let set = Event { seconds: 0, micros: 0, kind: 3, code, value };
            &&& forall|end: Event|
                end.kind == 0 && end.code == 0 && (#[trigger] held.next(
                    end,
                    now,
                )).recognizer.pending is None ==> held.reaction(end, now).len() == 1 && (
                held.reaction(end, now)[0] matches Output::Emit(events) && exists|i: int|
                    0 < i < events.len() && events[i - 1] == select && #[trigger] events[i] == set)
            &&& held.idle(now).recognizer.pending is None ==> held.idle_reaction(now).len() == 1 && (
            held.idle_reaction(now)[0] matches Output::Emit(events) && exists|i: int|
                0 < i < events.len() && events[i - 1] == select && #[trigger] events[i] == set)
            &&& forall|other: Event|
                other.kind == 3 && other.code == 0x39 && held.current_slot != slot ==> exists|
                    i: int,
                |
                    0 < i < (#[trigger] held.next(other, now)).frame.len() && held.next(
                        other,
                        now,
                    ).frame[i - 1] == select && #[trigger] held.next(other, now).frame[i] == set
        }),
{
    let held = state.run(inputs);
    let select = Event { seconds: 0, micros: 0, kind: 3, code: 0x2f, value: slot as i32 };
    let set = Event { seconds: 0, micros: 0, kind: 3, code, value };
    stream_laws::lemma_run_valid(state, inputs);
    law_last_value_sent_is_on_record(state, inputs, selection, sending, slot, code, value);
    assert(held.recognizer.contacts.contains_key(slot));
    assert(frame::finger_down(held.slots, slot));
    assert(exists|i: int|
        0 < i < frame::restored(held.frame, held.slots, slot).len() && frame::restored(
            held.frame,
            held.slots,
            slot,
        )[i - 1] == select && #[trigger] frame::restored(held.frame, held.slots, slot)[i] == set)
        by {
        lemma_restored_holds(held.frame, held.slots, slot, code);
    }
    let shown = frame::restored(held.frame, held.slots, slot);
    let at = choose|i: int|
        0 < i < shown.len() && shown[i - 1] == select && #[trigger] shown[i] == set;
    assert forall|end: Event|
        end.kind == 0 && end.code == 0 && (#[trigger] held.next(
            end,
            now,
        )).recognizer.pending is None implies held.reaction(end, now).len() == 1 && (held.reaction(
        end,
        now,
    )[0] matches Output::Emit(events) && exists|i: int|
        0 < i < events.len() && events[i - 1] == select && #[trigger] events[i] == set) by {
        law_report_hands_out_the_queue(held, end, now, held.recognizer.contacts.len() as int);
        let events = held.reaction(end, now)[0]->Emit_0;
        assert(events[at - 1] == select && events[at] == set);
    }
    if held.idle(now).recognizer.pending is None {
        law_silence(held, now);
        let events = held.idle_reaction(now)[0]->Emit_0;
        assert(events[at - 1] == select && events[at] == set);
    }
    assert forall|other: Event|
        other.kind == 3 && other.code == 0x39 && held.current_slot != slot implies exists|i: int|
        0 < i < (#[trigger] held.next(other, now)).frame.len() && held.next(other, now).frame[i - 1]
            == select && #[trigger] held.next(other, now).frame[i] == set by {
        let after = held.next(other, now);
        law_queue_after_an_event(held, other, now);
        law_attributes_are_on_record(held, other, now);
        assert(after.slots[slot] == held.slots[slot]);
        assert(frame::restored(held.frame, after.slots, slot) == shown);
        assert(after.frame[at - 1] == select && after.frame[at] == set);
    }
}

/// A contact that is shown holds each axis on record right after the selection of its slot.
proof fn lemma_restored_holds(
    queue: Seq<Event>,
    slots: Map<u16, Map<u16, i32>>,
    slot: u16,
    code: u16,
)
    requires
        frame::finger_down(slots, slot),
        slots[slot].contains_key(code),
        forall|c: u16| #[trigger]
            slots[slot].contains_key(c) ==> crate::event::mt_attribute(c),
    ensures
        exists|i: int|
            0 < i < frame::restored(queue, slots, slot).len() && frame::restored(
                queue,
                slots,
                slot,
            )[i - 1] == (Event { seconds: 0, micros: 0, kind: 3, code: 0x2f, value: slot as i32 })
                && #[trigger] frame::restored(queue, slots, slot)[i] == (Event {
                seconds: 0,
                micros: 0,
                kind: 3,
                code,
                value: slots[slot][code],
            }),
{
    frame_laws::law_restored_contact_event_by_event(queue, slots, slot);
    let all = frame::restored(queue, slots, slot);
    let first = queue.len() as int;
    let i = choose|i: int|
        first <= i < all.len() && (i - first) % 2 == 1 && (#[trigger] all[i]).code == code
            && all[i].value == slots[slot][code];
    assert((i - 1 - first) % 2 == 0);
    assert(all[i - 1].code == 0x2f);
    assert(all[i] == (Event {
        seconds: 0,
        micros: 0,
        kind: 3,
        code,
        value: slots[slot][code],
    }));
}

} // verus!
