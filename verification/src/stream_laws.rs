//! What holds of the output as a whole, whatever the touchpad sends.

use vstd::prelude::*;

use crate::codes::{ABS_MT_TRACKING_ID, NO_CONTACT};
use crate::event::Event;
use crate::frame;
use crate::order;
use crate::recognizer;
use crate::recognizer::{Decision, Nanos, Thresholds};
use crate::session;
use crate::session::{Input, Output, SessionState};

verus! {

/// `event` as a reader of the output learns it, in `slot`.
pub open spec fn attribute(slot: u16, event: Event) -> (i32, u16, i32) {
    (slot as i32, event.code, event.value)
}

/// What a reader learns of a contact with the given axes when it is shown in `slot`.
pub open spec fn shown_contact(slot: u16, axes: Map<u16, i32>) -> Seq<(i32, u16, i32)> {
    frame::contact_events(axes).map_values(|event: Event| attribute(slot, event))
}

/// Reading goes on in the slot that was selected last.
proof fn lemma_replay_add(a: Seq<Event>, b: Seq<Event>, start: i32)
    ensures
        frame::replay(a + b, start) == frame::replay(a, start) + frame::replay(
            b,
            frame::selected_slot(a, start),
        ),
        frame::selected_slot(a + b, start) == frame::selected_slot(
            b,
            frame::selected_slot(a, start),
        ),
    decreases b.len(),
{
    if b.len() == 0 {
        assert(a + b =~= a);
    } else {
        lemma_replay_add(a, b.drop_last(), start);
        assert((a + b).drop_last() =~= a + b.drop_last());
        assert((a + b).last() == b.last());
    }
}

/// Events that set no attribute tell a reader nothing.
proof fn lemma_replay_plain(events: Seq<Event>, start: i32)
    requires
        forall|i: int| 0 <= i < events.len() ==> !(#[trigger] events[i]).sets_attribute(),
    ensures
        frame::replay(events, start) == Seq::<(i32, u16, i32)>::empty(),
    decreases events.len(),
{
    if events.len() > 0 {
        assert(!events[events.len() - 1].sets_attribute());
        lemma_replay_plain(events.drop_last(), start);
    }
}

/// A queued attribute reaches a reader in the slot that it was queued for, whichever slot was
/// selected before; any other event tells a reader of attributes nothing.
pub proof fn law_queued_attribute_keeps_its_slot(
    queue: Seq<Event>,
    slot: u16,
    event: Event,
    start: i32,
)
    ensures
        event.sets_attribute() ==> frame::replay(frame::queued(queue, slot, event), start)
            == frame::replay(queue, start).push(attribute(slot, event)),
        !event.sets_attribute() ==> frame::replay(frame::queued(queue, slot, event), start)
            == frame::replay(queue, start),
{
    let selecting = Event::selecting(slot);
    assert(queue.push(event).drop_last() =~= queue);
    assert(queue.push(selecting).push(event).drop_last() =~= queue.push(selecting));
    assert(queue.push(selecting).drop_last() =~= queue);
    assert(queue.push(selecting).last() == selecting);
    assert(frame::replay(queue.push(selecting), start) == frame::replay(queue, start));
    assert(frame::selected_slot(queue.push(selecting), start) == slot as i32);
}

/// Attributes that are queued for one slot reach a reader in that slot, in their order.
proof fn lemma_replay_queued_all(queue: Seq<Event>, slot: u16, events: Seq<Event>, start: i32)
    requires
        forall|i: int| 0 <= i < events.len() ==> (#[trigger] events[i]).sets_attribute(),
    ensures
        frame::replay(frame::queued_all(queue, slot, events), start) == frame::replay(queue, start)
            + events.map_values(|event: Event| attribute(slot, event)),
    decreases events.len(),
{
    let seen = |event: Event| attribute(slot, event);
    if events.len() > 0 {
        assert(events[events.len() - 1].sets_attribute());
        lemma_replay_queued_all(queue, slot, events.drop_last(), start);
        law_queued_attribute_keeps_its_slot(
            frame::queued_all(queue, slot, events.drop_last()),
            slot,
            events.last(),
            start,
        );
        assert(events.map_values(seen) =~= events.drop_last().map_values(seen).push(
            seen(events.last()),
        ));
    }
}

/// The events that show a contact set its tracking identifier first, then each of its other axes
/// once, and nothing else.
proof fn lemma_contact_events(axes: Map<u16, i32>)
    requires
        axes.contains_key(ABS_MT_TRACKING_ID),
        forall|code: u16| #[trigger]
            axes.contains_key(code) ==> crate::event::mt_attribute(code),
    ensures
        forall|i: int|
            0 <= i < frame::contact_events(axes).len() ==> (#[trigger] frame::contact_events(
                axes,
            )[i]).sets_attribute(),
        frame::contact_events(axes).len() > 0,
        frame::contact_events(axes)[0] == frame::axis_event(
            ABS_MT_TRACKING_ID,
            axes[ABS_MT_TRACKING_ID],
        ),
        forall|code: u16| #[trigger]
            axes.contains_key(code) ==> exists|i: int|
                0 <= i < frame::contact_events(axes).len() && #[trigger] frame::contact_events(
                    axes,
                )[i] == frame::axis_event(code, axes[code]),
{
    let shape = |code: u16| frame::is_shape(code);
    let all = order::ascending(axes.dom());
    let rest = all.filter(shape);
    let codes = seq![ABS_MT_TRACKING_ID] + rest;
    let events = frame::contact_events(axes);
    order::lemma_ascending(axes.dom());
    assert forall|i: int| 0 <= i < events.len() implies (#[trigger] events[i]).sets_attribute() by {
        if i > 0 {
            assert(rest.contains(rest[i - 1]));
            all.lemma_filter_contains_rev(shape, rest[i - 1]);
            assert(axes.contains_key(codes[i]));
        }
    }
    assert forall|code: u16| #[trigger] axes.contains_key(code) implies exists|i: int|
        0 <= i < events.len() && #[trigger] events[i] == frame::axis_event(code, axes[code]) by {
        if code == ABS_MT_TRACKING_ID {
            assert(events[0] == frame::axis_event(code, axes[code]));
        } else {
            assert(all.contains(code));
            let j = choose|j: int| 0 <= j < all.len() && all[j] == code;
            all.lemma_filter_contains(shape, j);
            let k = choose|k: int| 0 <= k < rest.len() && rest[k] == code;
            assert(events[k + 1] == frame::axis_event(code, axes[code]));
        }
    }
}

/// A restored contact reaches a reader in its own slot: first its tracking identifier, then
/// every other axis on record, and nothing for any other slot.
pub proof fn law_restored_contact_is_complete(
    queue: Seq<Event>,
    slots: Map<u16, Map<u16, i32>>,
    slot: u16,
    start: i32,
)
    requires
        frame::finger_down(slots, slot),
        forall|code: u16| #[trigger]
            slots[slot].contains_key(code) ==> crate::event::mt_attribute(code),
    ensures
        frame::replay(frame::restored(queue, slots, slot), start) == frame::replay(queue, start)
            + shown_contact(slot, slots[slot]),
        shown_contact(slot, slots[slot]).len() > 0,
        shown_contact(slot, slots[slot])[0] == (
            slot as i32,
            ABS_MT_TRACKING_ID,
            slots[slot][ABS_MT_TRACKING_ID],
        ),
        forall|code: u16| #[trigger]
            slots[slot].contains_key(code) ==> shown_contact(slot, slots[slot]).contains(
                (slot as i32, code, slots[slot][code]),
            ),
        forall|i: int|
            0 <= i < shown_contact(slot, slots[slot]).len() ==> (#[trigger] shown_contact(
                slot,
                slots[slot],
            )[i]).0 == slot,
{
    let axes = slots[slot];
    let events = frame::contact_events(axes);
    let shown = shown_contact(slot, axes);
    lemma_contact_events(axes);
    lemma_replay_queued_all(queue, slot, events, start);
    assert forall|code: u16| #[trigger] axes.contains_key(code) implies shown.contains(
        (slot as i32, code, axes[code]),
    ) by {
        let i = choose|i: int|
            0 <= i < events.len() && #[trigger] events[i] == frame::axis_event(code, axes[code]);
        assert(shown[i] == (slot as i32, code, axes[code]));
    }
}

/// A lifted contact reaches a reader as the release of its own slot.
pub proof fn law_lifted_contacts_are_released(queue: Seq<Event>, released: Seq<u16>, start: i32)
    ensures
        frame::replay(frame::lifted(queue, released), start) == frame::replay(queue, start)
            + released.map_values(|slot: u16| (slot as i32, ABS_MT_TRACKING_ID, NO_CONTACT)),
    decreases released.len(),
{
    let release = |slot: u16| (slot as i32, ABS_MT_TRACKING_ID, NO_CONTACT);
    if released.len() > 0 {
        law_lifted_contacts_are_released(queue, released.drop_last(), start);
        law_queued_attribute_keeps_its_slot(
            frame::lifted(queue, released.drop_last()),
            released.last(),
            frame::axis_event(ABS_MT_TRACKING_ID, NO_CONTACT),
            start,
        );
        assert(released.map_values(release) =~= released.drop_last().map_values(release).push(
            release(released.last()),
        ));
    }
}

/// The events that `outputs` emit, one report after the other.
pub open spec fn emitted(outputs: Seq<Output>) -> Seq<Event>
    decreases outputs.len(),
{
    if outputs.len() == 0 {
        Seq::empty()
    } else {
        emitted(outputs.drop_last()) + match outputs.last() {
            Output::Emit(events) => events,
            Output::Resynchronized(_) => Seq::empty(),
        }
    }
}

/// What a reader learns of the events that `outputs` emit and of those still queued.
pub open spec fn learned(outputs: Seq<Output>, queue: Seq<Event>, start: i32) -> Seq<
    (i32, u16, i32),
> {
    frame::replay(emitted(outputs) + queue, start)
}

/// What was learned stays learned, and what comes new is about other slots than `slot`.
pub open spec fn grows_without(
    before: Seq<(i32, u16, i32)>,
    after: Seq<(i32, u16, i32)>,
    slot: u16,
) -> bool {
    &&& before.len() <= after.len()
    &&& forall|i: int| 0 <= i < before.len() ==> #[trigger] after[i] == before[i]
    &&& forall|i: int|
        before.len() <= i < after.len() ==> (#[trigger] after[i]).0 != slot as i32
}

/// Outputs that follow others emit their events after those of the others.
proof fn lemma_emitted_add(a: Seq<Output>, b: Seq<Output>)
    ensures
        emitted(a + b) == emitted(a) + emitted(b),
    decreases b.len(),
{
    if b.len() == 0 {
        assert(a + b =~= a);
    } else {
        lemma_emitted_add(a, b.drop_last());
        assert((a + b).drop_last() =~= a + b.drop_last());
        assert(emitted(a + b) =~= emitted(a) + emitted(b));
    }
}

/// A single output emits its own events.
proof fn lemma_emitted_one(output: Output)
    ensures
        emitted(seq![output]) == match output {
            Output::Emit(events) => events,
            Output::Resynchronized(_) => Seq::empty(),
        },
{
    reveal_with_fuel(emitted, 2);
    assert(seq![output].drop_last() =~= Seq::empty());
    assert(emitted(seq![output]) =~= match output {
        Output::Emit(events) => events,
        Output::Resynchronized(_) => Seq::empty(),
    });
}

/// A report tells a reader of attributes what is queued, no more.
proof fn lemma_report_learned(state: SessionState, start: i32)
    ensures
        learned(seq![state.report()], Seq::empty(), start) == frame::replay(state.frame, start),
{
    let counts = frame::count_events(state.recognizer.visible());
    lemma_emitted_one(state.report());
    lemma_replay_plain(counts, frame::selected_slot(state.frame, start));
    lemma_replay_add(state.frame, counts, start);
    assert(state.frame + counts + Seq::empty() =~= state.frame + counts);
    assert(frame::replay(state.frame, start) + Seq::empty() =~= frame::replay(state.frame, start));
}

/// As long as positions leave a contact hidden they queue nothing; when they show it, it is
/// queued as it is on record.
proof fn lemma_located_all_frame(state: SessionState, slots: Seq<u16>, now: Nanos)
    requires
        state.valid(),
    ensures
        ({
            let after = state.located_all(slots, now);
            &&& after.recognizer.hidden() is None || after.recognizer.hidden()
                == state.recognizer.hidden()
            &&& after.recognizer.hidden() == state.recognizer.hidden() ==> after.frame
                == state.frame
            &&& after.recognizer.hidden() != state.recognizer.hidden() ==> after.frame
                == frame::restored(state.frame, state.slots, state.recognizer.hidden()->0)
        }),
    decreases slots.len(),
{
    if slots.len() > 0 {
        lemma_located_all_frame(state, slots.drop_last(), now);
        session::lemma_located_all_valid(state, slots.drop_last(), now);
    }
}

/// While a contact is hidden, no input makes the filter write anything for its slot.
pub proof fn law_hidden_contact_is_not_written(
    state: SessionState,
    input: Input,
    slot: u16,
    start: i32,
)
    requires
        state.valid(),
        state.step(input).recognizer.hidden() == Some(slot),
    ensures
        grows_without(
            frame::replay(state.frame, start),
            learned(state.step_outputs(input), state.step(input).frame, start),
            slot,
        ),
{
    let after = state.step(input);
    match input {
        Input::Event(event, now) => {
            if session::ends_report(event) {
                lemma_located_all_frame(state, order::ascending(state.slots.dom()), now);
                lemma_report_learned(state.settled(now), start);
            } else {
                assert(state.step_outputs(input) =~= Seq::empty());
                assert(emitted(Seq::empty()) + after.frame =~= after.frame);
                law_queued_attribute_keeps_its_slot(state.frame, after.current_slot, event, start);
            }
        },
        Input::Silence(now) => {
            assert(emitted(Seq::empty()) + after.frame =~= after.frame);
        },
    }
}

/// Every state that a fresh filter can reach is valid: the recognizer and the slots agree on
/// which fingers are down, and the queue selects a slot before each attribute.
pub proof fn law_every_reachable_state_is_valid(thresholds: Thresholds, inputs: Seq<Input>)
    ensures
        SessionState::fresh(thresholds).run(inputs).valid(),
{
    lemma_run_valid(SessionState::fresh(thresholds), inputs);
}

/// Inputs leave a valid state.
pub proof fn lemma_run_valid(state: SessionState, inputs: Seq<Input>)
    requires
        state.valid(),
    ensures
        state.run(inputs).valid(),
    decreases inputs.len(),
{
    if inputs.len() > 0 {
        lemma_run_valid(state, inputs.drop_last());
        session::lemma_step_valid(state.run(inputs.drop_last()), inputs.last());
    }
}

/// It makes no difference whether inputs come in one batch or in two.
pub proof fn law_batches_compose(state: SessionState, first: Seq<Input>, second: Seq<Input>)
    ensures
        state.run(first + second) == state.run(first).run(second),
        state.run_outputs(first + second) == state.run_outputs(first) + state.run(
            first,
        ).run_outputs(second),
    decreases second.len(),
{
    if second.len() == 0 {
        assert(first + second =~= first);
        assert(state.run_outputs(first) + Seq::empty() =~= state.run_outputs(first));
    } else {
        law_batches_compose(state, first, second.drop_last());
        assert((first + second).drop_last() =~= first + second.drop_last());
        assert(state.run_outputs(first + second) =~= state.run_outputs(first) + state.run(
            first,
        ).run_outputs(second));
    }
}

/// What is learned by a step comes after all that was learned before it.
proof fn lemma_learned_step(
    outputs: Seq<Output>,
    queue: Seq<Event>,
    more: Seq<Output>,
    next_queue: Seq<Event>,
    start: i32,
)
    ensures
        learned(outputs, queue, start) == frame::replay(emitted(outputs), start) + frame::replay(
            queue,
            frame::selected_slot(emitted(outputs), start),
        ),
        learned(outputs + more, next_queue, start) == frame::replay(emitted(outputs), start)
            + learned(more, next_queue, frame::selected_slot(emitted(outputs), start)),
{
    lemma_emitted_add(outputs, more);
    lemma_replay_add(emitted(outputs), queue, start);
    lemma_replay_add(emitted(outputs), emitted(more) + next_queue, start);
    assert(emitted(outputs) + emitted(more) + next_queue =~= emitted(outputs) + (emitted(more)
        + next_queue));
}

/// From the moment it is hidden until it no longer is, nothing is written for the slot of a
/// hidden contact, whatever comes in.
pub proof fn law_hidden_contact_stays_unwritten(
    state: SessionState,
    inputs: Seq<Input>,
    slot: u16,
    start: i32,
)
    requires
        state.valid(),
        forall|n: int|
            0 < n <= inputs.len() ==> (#[trigger] state.run(
                inputs.take(n),
            )).recognizer.hidden() == Some(slot),
    ensures
        grows_without(
            frame::replay(state.frame, start),
            learned(state.run_outputs(inputs), state.run(inputs).frame, start),
            slot,
        ),
    decreases inputs.len(),
{
    if inputs.len() == 0 {
        assert(emitted(Seq::empty()) + state.frame =~= state.frame);
    } else {
        let earlier = inputs.drop_last();
        let middle = state.run(earlier);
        assert forall|n: int| 0 < n <= earlier.len() implies (#[trigger] state.run(
            earlier.take(n),
        )).recognizer.hidden() == Some(slot) by {
            assert(earlier.take(n) =~= inputs.take(n));
        }
        assert(inputs.take(inputs.len() as int) =~= inputs);
        law_hidden_contact_stays_unwritten(state, earlier, slot, start);
        lemma_run_valid(state, earlier);
        let outputs = state.run_outputs(earlier);
        let selected = frame::selected_slot(emitted(outputs), start);
        law_hidden_contact_is_not_written(middle, inputs.last(), slot, selected);
        lemma_learned_step(
            outputs,
            middle.frame,
            middle.step_outputs(inputs.last()),
            middle.step(inputs.last()).frame,
            start,
        );
        let old = frame::replay(emitted(outputs), start);
        let before = frame::replay(middle.frame, selected);
        let after = learned(
            middle.step_outputs(inputs.last()),
            middle.step(inputs.last()).frame,
            selected,
        );
        assert forall|i: int| 0 <= i < (old + before).len() implies #[trigger] (old + after)[i]
            == (old + before)[i] by {
            if i >= old.len() {
                assert(after[i - old.len()] == before[i - old.len()]);
            }
        }
        assert forall|i: int|
            (old + before).len() <= i < (old + after).len() implies (#[trigger] (old
            + after)[i]).0 != slot as i32 by {
            assert(after[i - old.len()].0 != slot as i32);
        }
    }
}

/// A second finger that is hidden when it lands, and still is when it leaves, makes the filter
/// press and release the left button; nothing is ever written for its slot, and no contact is
/// hidden afterwards.
pub proof fn law_tap_becomes_a_click(
    state: SessionState,
    inputs: Seq<Input>,
    slot: u16,
    release: Event,
    now: Nanos,
    start: i32,
)
    requires
        state.valid(),
        inputs.len() > 0,
        forall|n: int|
            0 < n <= inputs.len() ==> (#[trigger] state.run(
                inputs.take(n),
            )).recognizer.hidden() == Some(slot),
        state.run(inputs).current_slot == slot,
        session::tracks_contact(release),
        release.value < 0,
    ensures
        ({
            let held = state.run(inputs);
            let all = inputs.push(Input::Event(release, now));
            let visible = SessionState {
                recognizer: held.recognizer.touch_up(slot),
                ..held
            };
            &&& state.run_outputs(all) == state.run_outputs(inputs) + seq![
                visible.report(),
                session::left_button(1),
                session::left_button(0),
            ]
            &&& state.run(all).recognizer == held.recognizer.touch_up(slot)
            &&& grows_without(
                frame::replay(state.frame, start),
                learned(state.run_outputs(all), state.run(all).frame, start),
                slot,
            )
        }),
{
    let held = state.run(inputs);
    let input = Input::Event(release, now);
    let all = inputs.push(input);
    let visible = SessionState { recognizer: held.recognizer.touch_up(slot), ..held };
    let outputs = state.run_outputs(inputs);
    let selected = frame::selected_slot(emitted(outputs), start);
    assert(all.drop_last() =~= inputs);
    assert(inputs.take(inputs.len() as int) =~= inputs);
    law_hidden_contact_stays_unwritten(state, inputs, slot, start);
    assert(held.processed(release, now).frame == held.frame);
    assert(held.processed(release, now).report() == visible.report());
    let click = seq![visible.report(), session::left_button(1), session::left_button(0)];
    assert(held.step_outputs(input) =~= click);
    lemma_learned_step(outputs, held.frame, click, Seq::empty(), start);
    let buttons = seq![session::left_button(1), session::left_button(0)];
    let pressed = emitted(buttons);
    assert(click =~= seq![visible.report()] + buttons);
    assert(pressed.len() == 2 && forall|i: int|
        0 <= i < pressed.len() ==> !(#[trigger] pressed[i]).sets_attribute()) by {
        assert(buttons =~= seq![session::left_button(1)] + seq![session::left_button(0)]);
        lemma_emitted_add(seq![session::left_button(1)], seq![session::left_button(0)]);
        lemma_emitted_one(session::left_button(1));
        lemma_emitted_one(session::left_button(0));
    }
    lemma_emitted_add(seq![visible.report()], buttons);
    lemma_report_learned(visible, selected);
    let reported = emitted(seq![visible.report()]);
    assert(reported + Seq::empty() =~= reported);
    lemma_replay_add(reported, pressed, selected);
    lemma_replay_plain(pressed, frame::selected_slot(reported, selected));
    assert(reported + pressed + Seq::empty() =~= reported + pressed);
    assert(frame::replay(held.frame, selected) + Seq::empty() =~= frame::replay(
        held.frame,
        selected,
    ));
}

/// When a hidden contact is shown again, because it moved, was held or was joined by another
/// finger, or because the first finger left, all that is on record of it is written: first its
/// tracking identifier, then every other axis with its last value.
pub proof fn law_restored_contact_is_written(
    state: SessionState,
    input: Input,
    slot: u16,
    start: i32,
)
    requires
        state.valid(),
        state.recognizer.hidden() == Some(slot),
        state.step(input).recognizer.hidden() is None,
        input matches Input::Event(event, now) ==> !session::all_fingers_left(event)
            && !state.clicks(event, now),
    ensures
        ({
            let shown = shown_contact(slot, state.step(input).slots[slot]);
            let before = frame::replay(state.frame, start);
            let after = learned(state.step_outputs(input), state.step(input).frame, start);
            &&& frame::finger_down(state.step(input).slots, slot)
            &&& (before + shown).is_prefix_of(after)
            &&& shown.len() > 0
            &&& shown[0] == (
                slot as i32,
                ABS_MT_TRACKING_ID,
                state.step(input).slots[slot][ABS_MT_TRACKING_ID],
            )
            &&& forall|code: u16| #[trigger]
                state.step(input).slots[slot].contains_key(code) ==> shown.contains(
                    (slot as i32, code, state.step(input).slots[slot][code]),
                )
        }),
{
    let after = state.step(input);
    assert(state.recognizer.contacts.contains_key(slot));
    session::lemma_step_valid(state, input);
    assert(frame::finger_down(state.slots, slot));
    match input {
        Input::Event(event, now) => {
            if session::ends_report(event) {
                let slots = order::ascending(state.slots.dom());
                lemma_located_all_frame(state, slots, now);
                session::lemma_located_all_valid(state, slots, now);
                law_restored_contact_is_complete(state.frame, state.slots, slot, start);
                lemma_report_learned(state.settled(now), start);
            } else {
                assert(session::tracks_contact(event));
                assert(state.step_outputs(input) =~= Seq::empty());
                assert(emitted(Seq::empty()) + after.frame =~= after.frame);
                let noted = state.recorded(event);
                assert(after.slots == noted.slots);
                assert(frame::finger_down(noted.slots, slot)) by {
                    if state.current_slot == slot {
                        assert(event.value >= 0);
                    }
                }
                assert forall|code: u16| #[trigger]
                    noted.slots[slot].contains_key(code) implies crate::event::mt_attribute(
                    code,
                ) by {
                    assert(after.slots[slot].contains_key(code));
                }
                law_restored_contact_is_complete(state.frame, noted.slots, slot, start);
                law_queued_attribute_keeps_its_slot(
                    frame::restored(state.frame, noted.slots, slot),
                    after.current_slot,
                    event,
                    start,
                );
            }
        },
        Input::Silence(now) => {
            law_restored_contact_is_complete(state.frame, state.slots, slot, start);
            lemma_report_learned(
                SessionState {
                    recognizer: state.recognizer.tick(now),
                    ..state
                }.shown(Decision::RestoreForScroll(slot)),
                start,
            );
        },
    }
}

/// Silence changes nothing as long as the hidden contact can be a tap, and ends its hiding with
/// one report once it has been down for the tap timeout.
pub proof fn law_silence_ends_a_hold(state: SessionState, slot: u16, since: Nanos, now: Nanos)
    requires
        state.valid(),
        state.recognizer.pending == Some((slot, since)),
    ensures
        !state.recognizer.tap_ruled_out(now) ==> state.idle(now) == state && state.idle_reaction(
            now,
        ) == Seq::<Output>::empty(),
        recognizer::elapsed(now, since) >= state.recognizer.tap_timeout ==> state.idle(
            now,
        ).recognizer.hidden() is None && state.idle_reaction(now).len() == 1,
{
}

/// The filter stays out of the way: while no contact is or becomes hidden, every event is queued
/// as it came, in the slot that the touchpad has selected, and nothing else is done. The exceptions
/// are the end of a report, the finger count, which the filter makes itself, and the word that
/// all fingers left.
pub proof fn law_nothing_hidden_nothing_changed(state: SessionState, event: Event, now: Nanos)
    requires
        state.valid(),
        state.recognizer.hidden() is None,
        state.next(event, now).recognizer.hidden() is None,
        !session::ends_report(event),
        !session::all_fingers_left(event),
        !event.counts_fingers(),
    ensures
        state.next(event, now).frame == frame::queued(
            state.frame,
            state.next(event, now).current_slot,
            event,
        ),
        state.reaction(event, now) == Seq::<Output>::empty(),
{
}

/// An attribute of a contact that is not hidden, and does not end a tap, is forwarded in its own
/// slot as the last thing written; unless it begins or ends a contact it is the only thing.
pub proof fn law_visible_contact_is_forwarded(
    state: SessionState,
    event: Event,
    now: Nanos,
    start: i32,
)
    requires
        state.valid(),
        event.sets_attribute(),
        state.next(event, now).recognizer.hidden() != Some(state.current_slot),
        !state.clicks(event, now),
    ensures
        state.reaction(event, now) == Seq::<Output>::empty(),
        frame::replay(state.next(event, now).frame, start).len() > 0,
        frame::replay(state.next(event, now).frame, start).last() == attribute(
            state.current_slot,
            event,
        ),
        !session::tracks_contact(event) ==> frame::replay(state.next(event, now).frame, start)
            == frame::replay(state.frame, start).push(attribute(state.current_slot, event)),
{
    let noted = state.recorded(event);
    let recognized = noted.recognized(event, now);
    let shown = recognized.shown(noted.decision(event, now));
    law_queued_attribute_keeps_its_slot(shown.frame, state.current_slot, event, start);
}

/// A sequence in ascending order has no duplicates left in any part of it, and the part holds
/// what satisfies the predicate.
proof fn lemma_increasing_filter(all: Seq<u16>, pred: spec_fn(u16) -> bool)
    requires
        forall|i: int, j: int| 0 <= i < j < all.len() ==> #[trigger] all[i] < #[trigger] all[j],
    ensures
        all.filter(pred).no_duplicates(),
        forall|k: u16| #[trigger]
            all.filter(pred).contains(k) <==> all.contains(k) && pred(k),
    decreases all.len(),
{
    reveal(Seq::filter);
    if all.len() > 0 {
        let rest = all.drop_last();
        lemma_increasing_filter(rest, pred);
        assert forall|k: u16| #[trigger] all.filter(pred).contains(k) <==> all.contains(k) && pred(
            k,
        ) by {
            if all.contains(k) && pred(k) {
                let i = choose|i: int| 0 <= i < all.len() && all[i] == k;
                all.lemma_filter_contains(pred, i);
            }
            if all.filter(pred).contains(k) {
                all.lemma_filter_contains_rev(pred, k);
                let i = choose|i: int|
                    0 <= i < all.filter(pred).len() && all.filter(pred)[i] == k;
                all.lemma_filter_pred(pred, i);
            }
        }
        if pred(all.last()) {
            assert forall|i: int| 0 <= i < rest.filter(pred).len() implies rest.filter(pred)[i]
                != all.last() by {
                let k = rest.filter(pred)[i];
                assert(rest.filter(pred).contains(k));
                let j = choose|j: int| 0 <= j < rest.len() && rest[j] == k;
                assert(all[j] < all[all.len() - 1]);
            }
        }
    }
}

/// The recognizer counts as many contacts as there are slots with a finger down.
proof fn lemma_active_slots(state: SessionState)
    requires
        state.valid(),
    ensures
        frame::active_slots(state.slots).len() == state.recognizer.contacts.len(),
        forall|slot: u16| #[trigger]
            frame::active_slots(state.slots).contains(slot) <==> frame::finger_down(
                state.slots,
                slot,
            ),
{
    let all = order::ascending(state.slots.dom());
    let active = frame::active_slots(state.slots);
    order::lemma_ascending(state.slots.dom());
    lemma_increasing_filter(all, |slot: u16| frame::finger_down(state.slots, slot));
    active.unique_seq_to_set();
    assert forall|slot: u16| active.to_set().contains(
        slot,
    ) <==> state.recognizer.contacts.dom().contains(slot) by {
        assert(state.recognizer.contacts.contains_key(slot) <==> frame::finger_down(
            state.slots,
            slot,
        ));
        assert(active.contains(slot) <==> active.to_set().contains(slot));
    }
    assert(active.to_set() =~= state.recognizer.contacts.dom());
}

/// When the touchpad says that no finger is left, every contact that is still on record is
/// released in its slot and forgotten, and the number of them is reported unless there is none.
pub proof fn law_all_fingers_left_resynchronizes(
    state: SessionState,
    event: Event,
    now: Nanos,
    start: i32,
)
    requires
        state.valid(),
        session::all_fingers_left(event),
    ensures
        state.next(event, now).recognizer == state.recognizer.reset(),
        state.next(event, now).slots == Map::<u16, Map<u16, i32>>::empty(),
        frame::replay(state.next(event, now).frame, start) == frame::replay(state.frame, start)
            + frame::active_slots(state.slots).map_values(
            |slot: u16| (slot as i32, ABS_MT_TRACKING_ID, NO_CONTACT),
        ),
        forall|slot: u16| #[trigger]
            frame::active_slots(state.slots).contains(slot)
                <==> state.recognizer.contacts.contains_key(slot),
        state.recognizer.contacts.len() > 0 ==> state.reaction(event, now) == seq![
            Output::Resynchronized(state.recognizer.contacts.len()),
        ],
        state.recognizer.contacts.len() == 0 ==> state.reaction(event, now) == Seq::<
            Output,
        >::empty(),
{
    let active = frame::active_slots(state.slots);
    lemma_active_slots(state);
    assert forall|slot: u16| #[trigger]
        active.contains(slot) <==> state.recognizer.contacts.contains_key(slot) by {
        assert(state.recognizer.contacts.contains_key(slot) <==> frame::finger_down(
            state.slots,
            slot,
        ));
    }
    law_lifted_contacts_are_released(state.frame, active, start);
    law_queued_attribute_keeps_its_slot(
        frame::lifted(state.frame, active),
        state.current_slot,
        event,
        start,
    );
}

/// A report counts the visible fingers once, at its end, and the touchpad's own count is gone
/// from it: exactly the key for the count is down, or none if there is no finger.
pub proof fn law_report_counts_visible_fingers(state: SessionState, i: int)
    requires
        state.valid(),
        0 <= i < state.frame.len() + 5,
    ensures
        state.report() matches Output::Emit(events) && events.len() == state.frame.len() + 5
            && events.take(state.frame.len() as int) == state.frame && (
        events[i].counts_fingers() <==> i >= state.frame.len()) && (i >= state.frame.len() ==> (
        events[i].value == 1 <==> i - state.frame.len() == finger_key(state.recognizer.visible()))
            && (events[i].value == 0 || events[i].value == 1)),
{
    assert(state.report()->Emit_0.take(state.frame.len() as int) =~= state.frame);
    if i < state.frame.len() {
        assert(!state.frame[i].counts_fingers());
    }
}

/// The place of the key for `count` fingers among the five finger-count keys; there is none for
/// no finger.
pub open spec fn finger_key(count: int) -> int {
    if count >= 5 {
        4
    } else {
        count - 1
    }
}

} // verus!
