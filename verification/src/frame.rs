//! Frames of output events: queuing events for a slot, showing and releasing contacts, and
//! closing a frame with the finger count.

use std::collections::BTreeMap;

use vstd::prelude::*;

use crate::codes::{ABS_MT_SLOT, ABS_MT_TRACKING_ID, EV_ABS, EV_KEY, NO_CONTACT};
use crate::event;
use crate::event::{is_mt_attribute, tool_count_events, Event};
use crate::order;
use crate::order::keys_in_order;
use crate::recognizer::Recognizer;

verus! {

/// The last value of each axis that a slot has reported.
#[derive(Debug)]
pub struct SlotState {
    pub axes: BTreeMap<u16, i32>,
}

impl Default for SlotState {
    fn default() -> (r: Self)
        ensures
            r.axes@ == Map::<u16, i32>::empty(),
    {
        SlotState { axes: BTreeMap::new() }
    }
}

/// The axes of all slots, by slot.
pub open spec fn axes_by_slot(slots: Map<u16, SlotState>) -> Map<u16, Map<u16, i32>> {
    slots.map_values(|state: SlotState| state.axes@)
}

/// `frame` with `event` queued for `slot`: an attribute comes right after the selection of its
/// slot.
pub open spec fn queued(frame: Seq<Event>, slot: u16, event: Event) -> Seq<Event> {
    if event.sets_attribute() {
        frame.push(Event::selecting(slot)).push(event)
    } else {
        frame.push(event)
    }
}

/// `frame` with all of `events` queued for `slot`, in their order.
pub open spec fn queued_all(frame: Seq<Event>, slot: u16, events: Seq<Event>) -> Seq<Event>
    decreases events.len(),
{
    if events.len() == 0 {
        frame
    } else {
        queued(queued_all(frame, slot, events.drop_last()), slot, events.last())
    }
}

/// `code` is set to `value` in the selected slot.
pub open spec fn axis_event(code: u16, value: i32) -> Event {
    Event::made(EV_ABS, code, value)
}

/// The events that set the axes `codes` to their values in `axes`.
pub open spec fn axis_events(axes: Map<u16, i32>, codes: Seq<u16>) -> Seq<Event> {
    codes.map_values(|code: u16| axis_event(code, axes[code]))
}

/// The axes of a contact other than its tracking identifier.
pub open spec fn is_shape(code: u16) -> bool {
    code != ABS_MT_TRACKING_ID
}

/// The events that show a contact with the given axes: first its tracking identifier, then its
/// other axes by ascending code.
pub open spec fn contact_events(axes: Map<u16, i32>) -> Seq<Event> {
    axis_events(
        axes,
        seq![ABS_MT_TRACKING_ID] + order::ascending(axes.dom()).filter(
            |code: u16| is_shape(code),
        ),
    )
}

/// By the axes on record, a finger is down in `slot`.
pub open spec fn finger_down(slots: Map<u16, Map<u16, i32>>, slot: u16) -> bool {
    &&& slots.contains_key(slot)
    &&& slots[slot].contains_key(ABS_MT_TRACKING_ID)
    &&& slots[slot][ABS_MT_TRACKING_ID] >= 0
}

/// `frame` with the contact in `slot` shown, if a finger is down there.
pub open spec fn restored(
    frame: Seq<Event>,
    slots: Map<u16, Map<u16, i32>>,
    slot: u16,
) -> Seq<Event> {
    if finger_down(slots, slot) {
        queued_all(frame, slot, contact_events(slots[slot]))
    } else {
        frame
    }
}

/// The slots with a finger down, by ascending slot.
pub open spec fn active_slots(slots: Map<u16, Map<u16, i32>>) -> Seq<u16> {
    order::ascending(slots.dom()).filter(|slot: u16| finger_down(slots, slot))
}

/// `frame` with the contacts in `released` lifted, in their order.
pub open spec fn lifted(frame: Seq<Event>, released: Seq<u16>) -> Seq<Event>
    decreases released.len(),
{
    if released.len() == 0 {
        frame
    } else {
        queued(
            lifted(frame, released.drop_last()),
            released.last(),
            axis_event(ABS_MT_TRACKING_ID, NO_CONTACT),
        )
    }
}

/// The number of contacts that are still on record somewhere.
pub open spec fn stale(slots: Map<u16, Map<u16, i32>>, contacts: nat) -> nat {
    if active_slots(slots).len() > contacts {
        active_slots(slots).len()
    } else {
        contacts
    }
}

/// The events that say that `count` fingers are down.
pub open spec fn count_events(count: int) -> Seq<Event> {
    event::tool_counts(count).map_values(
        |key: (u16, i32)| Event::made(EV_KEY, key.0, key.1),
    )
}

/// Every attribute in `frame` comes right after the selection of a slot.
pub open spec fn self_addressed(frame: Seq<Event>) -> bool {
    forall|i: int|
        0 <= i < frame.len() && (#[trigger] frame[i]).sets_attribute() ==> 0 < i && frame[i
            - 1].selects_slot()
}

/// No event in `frame` counts fingers.
pub open spec fn counts_nothing(frame: Seq<Event>) -> bool {
    forall|i: int| 0 <= i < frame.len() ==> !(#[trigger] frame[i]).counts_fingers()
}

/// The slot that is selected after `events`, if `start` was before them.
pub open spec fn selected_slot(events: Seq<Event>, start: i32) -> i32
    decreases events.len(),
{
    if events.len() == 0 {
        start
    } else if events.last().selects_slot() {
        events.last().value
    } else {
        selected_slot(events.drop_last(), start)
    }
}

/// What a reader of `events` learns: each slot, axis and value that is set, in their order.
/// `start` is the slot that is selected before them.
pub open spec fn replay(events: Seq<Event>, start: i32) -> Seq<(i32, u16, i32)>
    decreases events.len(),
{
    if events.len() == 0 {
        Seq::empty()
    } else if events.last().sets_attribute() {
        replay(events.drop_last(), start).push(
            (
                selected_slot(events.drop_last(), start),
                events.last().code,
                events.last().value,
            ),
        )
    } else {
        replay(events.drop_last(), start)
    }
}

/// Queues `event` for `slot`.
pub fn queue_event(frame: &mut Vec<Event>, slot: u16, event: Event)
    ensures
        final(frame)@ == queued(old(frame)@, slot, event),
{
    if event.kind == EV_ABS && is_mt_attribute(event.code) {
        // Filtering and synthetic restoration can change the output slot independently
        // of the source. Select it explicitly before every forwarded attribute.
        frame.push(Event::new(EV_ABS, ABS_MT_SLOT, slot as i32));
    }
    frame.push(event);
}

/// Queues all that is on record of the contact in `slot`, if a finger is down there.
pub fn restore_contact(frame: &mut Vec<Event>, slots: &BTreeMap<u16, SlotState>, slot: u16)
    ensures
        final(frame)@ == restored(old(frame)@, axes_by_slot(slots@), slot),
{
    let state: &SlotState = match slots.get(&slot) {
        Some(state) => state,
        None => {
            return ;
        },
    };
    let tracking_id: i32 = match state.axes.get(&ABS_MT_TRACKING_ID) {
        Some(id) => *id,
        None => {
            return ;
        },
    };
    if tracking_id < 0 {
        return ;
    }
    queue_event(frame, slot, Event::new(EV_ABS, ABS_MT_TRACKING_ID, tracking_id));
    let codes: Vec<u16> = keys_in_order(&state.axes);
    let ghost shape = |code: u16| is_shape(code);
    let ghost axes = state.axes@;
    proof {
        reveal_with_fuel(queued_all, 2);
        assert(axis_events(axes, seq![ABS_MT_TRACKING_ID] + codes@.take(0).filter(shape))
            =~= seq![axis_event(ABS_MT_TRACKING_ID, tracking_id)]);
        assert(seq![axis_event(ABS_MT_TRACKING_ID, tracking_id)].drop_last() =~= Seq::empty());
    }
    for i in 0..codes.len()
        invariant
            codes@ == order::ascending(axes.dom()),
            axes == state.axes@,
            shape == (|code: u16| is_shape(code)),
            frame@ == queued_all(
                old(frame)@,
                slot,
                axis_events(
                    axes,
                    seq![ABS_MT_TRACKING_ID] + codes@.take(i as int).filter(shape),
                ),
            ),
    {
        let code: u16 = codes[i];
        let ghost before = codes@.take(i as int);
        proof {
            order::lemma_ascending(axes.dom());
            assert(codes@.contains(codes@[i as int]));
            assert(codes@.take(i + 1) =~= before.push(code));
            assert(before.push(code).drop_last() =~= before);
            reveal(Seq::filter);
        }
        if code != ABS_MT_TRACKING_ID {
            if let Some(value) = state.axes.get(&code) {
                queue_event(frame, slot, Event::new(EV_ABS, code, *value));
                proof {
                    let head = seq![ABS_MT_TRACKING_ID] + before.filter(shape);
                    let events = axis_events(axes, head);
                    let next = axis_events(
                        axes,
                        seq![ABS_MT_TRACKING_ID] + codes@.take(i + 1).filter(shape),
                    );
                    assert(next =~= events.push(axis_event(code, *value)));
                    assert(next.drop_last() =~= events);
                }
            }
        }
    }
    proof {
        assert(codes@.take(codes@.len() as int) =~= codes@);
    }
}

/// Queuing events that count no fingers keeps a frame self-addressed and free of finger counts.
pub proof fn lemma_queued_all(frame: Seq<Event>, slot: u16, events: Seq<Event>)
    requires
        self_addressed(frame),
        counts_nothing(frame),
        counts_nothing(events),
    ensures
        self_addressed(queued_all(frame, slot, events)),
        counts_nothing(queued_all(frame, slot, events)),
    decreases events.len(),
{
    if events.len() > 0 {
        lemma_queued_all(frame, slot, events.drop_last());
        assert(!events[events.len() - 1].counts_fingers());
    }
}

/// Showing a contact keeps a frame self-addressed and free of finger counts.
pub proof fn lemma_restored(frame: Seq<Event>, slots: Map<u16, Map<u16, i32>>, slot: u16)
    requires
        self_addressed(frame),
        counts_nothing(frame),
    ensures
        self_addressed(restored(frame, slots, slot)),
        counts_nothing(restored(frame, slots, slot)),
{
    if finger_down(slots, slot) {
        lemma_queued_all(frame, slot, contact_events(slots[slot]));
    }
}

/// Lifting contacts keeps a frame self-addressed and free of finger counts.
pub proof fn lemma_lifted(frame: Seq<Event>, released: Seq<u16>)
    requires
        self_addressed(frame),
        counts_nothing(frame),
    ensures
        self_addressed(lifted(frame, released)),
        counts_nothing(lifted(frame, released)),
    decreases released.len(),
{
    if released.len() > 0 {
        lemma_lifted(frame, released.drop_last());
    }
}

/// Whether a finger is down in `slot`, by the axes on record.
fn has_finger(slots: &BTreeMap<u16, SlotState>, slot: u16) -> (r: bool)
    ensures
        r == finger_down(axes_by_slot(slots@), slot),
{
    match slots.get(&slot) {
        Some(state) => match state.axes.get(&ABS_MT_TRACKING_ID) {
            Some(id) => *id >= 0,
            None => false,
        },
        None => false,
    }
}

/// The slots with a finger down, by ascending slot.
fn slots_with_finger(slots: &BTreeMap<u16, SlotState>) -> (r: Vec<u16>)
    ensures
        r@ == active_slots(axes_by_slot(slots@)),
{
    let ghost axes = axes_by_slot(slots@);
    let ghost down = |slot: u16| finger_down(axes, slot);
    let all: Vec<u16> = keys_in_order(slots);
    let mut active: Vec<u16> = Vec::new();
    proof {
        assert(axes.dom() =~= slots@.dom());
        assert(all@.take(0).filter(down) =~= Seq::empty());
    }
    for i in 0..all.len()
        invariant
            axes == axes_by_slot(slots@),
            down == (|slot: u16| finger_down(axes, slot)),
            active@ == all@.take(i as int).filter(down),
    {
        let slot: u16 = all[i];
        proof {
            assert(all@.take(i + 1).drop_last() =~= all@.take(i as int));
            reveal(Seq::filter);
        }
        if has_finger(slots, slot) {
            active.push(slot);
        }
    }
    proof {
        assert(all@.take(all@.len() as int) =~= all@);
    }
    active
}

/// Releases every contact and forgets all that is known of the fingers, and returns how many
/// contacts there were to forget.
pub fn reset_after_all_fingers_lifted(
    frame: &mut Vec<Event>,
    slots: &mut BTreeMap<u16, SlotState>,
    recognizer: &mut Recognizer,
) -> (stale_contacts: usize)
    ensures
        final(frame)@ == lifted(old(frame)@, active_slots(axes_by_slot(old(slots)@))),
        final(slots)@ == Map::<u16, SlotState>::empty(),
        final(recognizer).wf(),
        final(recognizer)@ == old(recognizer)@.reset(),
        stale_contacts == stale(axes_by_slot(old(slots)@), old(recognizer)@.contacts.len()),
{
    let active: Vec<u16> = slots_with_finger(&*slots);
    let count: usize = recognizer.contact_count();
    let stale_contacts: usize = if active.len() > count {
        active.len()
    } else {
        count
    };
    for i in 0..active.len()
        invariant
            frame@ == lifted(old(frame)@, active@.take(i as int)),
    {
        proof {
            assert(active@.take(i + 1).drop_last() =~= active@.take(i as int));
        }
        queue_event(frame, active[i], Event::new(EV_ABS, ABS_MT_TRACKING_ID, NO_CONTACT));
    }
    proof {
        assert(active@.take(active@.len() as int) =~= active@);
    }
    slots.clear();
    recognizer.reset();
    stale_contacts
}

/// Closes the frame: hands out its events followed by the count of the visible fingers, and
/// leaves it empty.
pub fn take_report(frame: &mut Vec<Event>, recognizer: &Recognizer) -> (report: Vec<Event>)
    requires
        recognizer.wf(),
    ensures
        report@ == old(frame)@ + count_events(recognizer@.visible()),
        final(frame)@ == Seq::<Event>::empty(),
{
    let keys: [(u16, i32); 5] = tool_count_events(recognizer.visible_contacts());
    let ghost counted = count_events(recognizer@.visible());
    let mut report: Vec<Event> = Vec::new();
    std::mem::swap(&mut report, frame);
    for i in 0..5usize
        invariant
            keys@ == event::tool_counts(recognizer@.visible()),
            counted == count_events(recognizer@.visible()),
            report@ == old(frame)@ + counted.take(i as int),
            frame@ == Seq::<Event>::empty(),
    {
        let (code, value) = keys[i];
        report.push(Event::new(EV_KEY, code, value));
        proof {
            assert(counted.take(i + 1) =~= counted.take(i as int).push(counted[i as int]));
        }
    }
    proof {
        assert(counted.take(5) =~= counted);
    }
    report
}

} // verus!
