//! What is queued for a report, event by event.

use vstd::prelude::*;

use crate::event;
use crate::event::Event;
use crate::frame;
use crate::frame::SlotState;
use crate::order;

verus! {

/// An attribute is one of the fourteen axes from 0x30 to 0x3d; a finger count is one of the five
/// keys 0x145, 0x148, 0x14d, 0x14e and 0x14f; a selection is the axis 0x2f.
pub proof fn law_kinds_of_events(event: Event)
    ensures
        event.sets_attribute() <==> event.kind == 3 && 0x30 <= event.code && event.code <= 0x3d,
        event::mt_attribute(event.code) <==> 0x30 <= event.code && event.code <= 0x3d,
        event.selects_slot() <==> event.kind == 3 && event.code == 0x2f,
        event.counts_fingers() <==> event.kind == 1 && (event.code == 0x145 || event.code == 0x148
            || event.code == 0x14d || event.code == 0x14e || event.code == 0x14f),
{
}

/// An event that is made up carries what it is made of, at time zero.
pub proof fn law_made_event(kind: u16, code: u16, value: i32)
    ensures
        Event::made(kind, code, value).seconds == 0,
        Event::made(kind, code, value).micros == 0,
        Event::made(kind, code, value).kind == kind,
        Event::made(kind, code, value).code == code,
        Event::made(kind, code, value).value == value,
{
}

/// For every number of fingers the five finger-count keys come in their order, and the one for
/// that number is down: the last one stands for five and more, and none for no finger.
pub proof fn law_finger_count_keys(count: int)
    ensures
        event::tool_counts(count).len() == 5,
        event::tool_counts(count)[0] == (0x145u16, if count == 1 {
            1i32
        } else {
            0
        }),
        event::tool_counts(count)[1] == (0x14du16, if count == 2 {
            1i32
        } else {
            0
        }),
        event::tool_counts(count)[2] == (0x14eu16, if count == 3 {
            1i32
        } else {
            0
        }),
        event::tool_counts(count)[3] == (0x14fu16, if count == 4 {
            1i32
        } else {
            0
        }),
        event::tool_counts(count)[4] == (0x148u16, if count >= 5 {
            1i32
        } else {
            0
        }),
        frame::count_events(count) == seq![
            (Event {
                seconds: 0,
                micros: 0,
                kind: 1,
                code: 0x145,
                value: if count == 1 {
                    1
                } else {
                    0
                },
            }),
            (Event {
                seconds: 0,
                micros: 0,
                kind: 1,
                code: 0x14d,
                value: if count == 2 {
                    1
                } else {
                    0
                },
            }),
            (Event {
                seconds: 0,
                micros: 0,
                kind: 1,
                code: 0x14e,
                value: if count == 3 {
                    1
                } else {
                    0
                },
            }),
            (Event {
                seconds: 0,
                micros: 0,
                kind: 1,
                code: 0x14f,
                value: if count == 4 {
                    1
                } else {
                    0
                },
            }),
            (Event {
                seconds: 0,
                micros: 0,
                kind: 1,
                code: 0x148,
                value: if count >= 5 {
                    1
                } else {
                    0
                },
            }),
        ],
{
}

/// A queued event is the last of the queue, as it came. An attribute comes right after the
/// selection of its slot; what was queued before stays in front.
pub proof fn law_queued_event_comes_last(queue: Seq<Event>, slot: u16, event: Event)
    ensures
        event.kind == 3 && 0x30 <= event.code && event.code <= 0x3d ==> frame::queued(
            queue,
            slot,
            event,
        ) == queue.push(
            (Event { seconds: 0, micros: 0, kind: 3, code: 0x2f, value: slot as i32 }),
        ).push(event),
        !(event.kind == 3 && 0x30 <= event.code && event.code <= 0x3d) ==> frame::queued(
            queue,
            slot,
            event,
        ) == queue.push(event),
{
}

/// The axes of a slot are those that its state holds.
pub proof fn law_axes_are_those_of_the_slots(slots: Map<u16, SlotState>, slot: u16)
    ensures
        frame::axes_by_slot(slots).contains_key(slot) <==> slots.contains_key(slot),
        slots.contains_key(slot) ==> frame::axes_by_slot(slots)[slot] == slots[slot].axes@,
{
}

/// Attributes that are queued for one slot alternate with selections of it.
proof fn lemma_queued_attributes(queue: Seq<Event>, slot: u16, events: Seq<Event>)
    requires
        forall|i: int| 0 <= i < events.len() ==> (#[trigger] events[i]).sets_attribute(),
    ensures
        ({
            let all = frame::queued_all(queue, slot, events);
            let first = queue.len() as int;
            &&& all.len() == queue.len() + 2 * events.len()
            &&& forall|i: int| 0 <= i < first ==> #[trigger] all[i] == queue[i]
            &&& forall|i: int|
                first <= i < all.len() ==> #[trigger] all[i] == if (i - first) % 2 == 0 {
                    Event::selecting(slot)
                } else {
                    events[(i - first) / 2]
                }
        }),
    decreases events.len(),
{
    if events.len() > 0 {
        let first = queue.len() as int;
        let rest = events.drop_last();
        assert forall|i: int| 0 <= i < rest.len() implies (#[trigger] rest[i]).sets_attribute() by {
            assert(events[i].sets_attribute());
        }
        lemma_queued_attributes(queue, slot, rest);
        assert(events[events.len() - 1].sets_attribute());
        let before = frame::queued_all(queue, slot, rest);
        let all = frame::queued_all(queue, slot, events);
        assert(all == before.push(Event::selecting(slot)).push(events.last()));
        assert forall|i: int| first <= i < all.len() implies #[trigger] all[i] == if (i - first) % 2
            == 0 {
            Event::selecting(slot)
        } else {
            events[(i - first) / 2]
        } by {
            if i < before.len() {
                assert(all[i] == before[i]);
            }
        }
    }
}

/// What remains of an ascending sequence is ascending, and holds what satisfies the predicate.
proof fn lemma_filter_ascending(all: Seq<u16>, pred: spec_fn(u16) -> bool)
    requires
        forall|i: int, j: int| 0 <= i < j < all.len() ==> #[trigger] all[i] < #[trigger] all[j],
    ensures
        forall|i: int, j: int|
            0 <= i < j < all.filter(pred).len() ==> #[trigger] all.filter(pred)[i]
                < #[trigger] all.filter(pred)[j],
        forall|k: u16| #[trigger] all.filter(pred).contains(k) <==> all.contains(k) && pred(k),
    decreases all.len(),
{
    reveal(Seq::filter);
    if all.len() > 0 {
        let rest = all.drop_last();
        let kept = rest.filter(pred);
        lemma_filter_ascending(rest, pred);
        assert forall|i: int| 0 <= i < kept.len() implies #[trigger] kept[i] < all.last() by {
            assert(kept.contains(kept[i]));
            assert(rest.contains(kept[i]));
            let j = choose|j: int| 0 <= j < rest.len() && rest[j] == kept[i];
            assert(all[j] < all[all.len() - 1]);
        }
        assert forall|k: u16| #[trigger]
            all.filter(pred).contains(k) <==> all.contains(k) && pred(k) by {
            if all.contains(k) && pred(k) {
                let i = choose|i: int| 0 <= i < all.len() && all[i] == k;
                all.lemma_filter_contains(pred, i);
            }
            if all.filter(pred).contains(k) {
                all.lemma_filter_contains_rev(pred, k);
                let i = choose|i: int| 0 <= i < all.filter(pred).len() && all.filter(pred)[i] == k;
                all.lemma_filter_pred(pred, i);
            }
        }
    }
}

/// A contact is shown with all its axes and nothing else: the queue stays in front, then each
/// axis on record comes once with its value, right after the selection of the slot. The tracking
/// identifier comes first, the others by ascending code.
pub proof fn law_restored_contact_event_by_event(
    queue: Seq<Event>,
    slots: Map<u16, Map<u16, i32>>,
    slot: u16,
)
    requires
        slots.contains_key(slot),
        slots[slot].contains_key(0x39),
        slots[slot][0x39] >= 0,
        forall|code: u16| #[trigger] slots[slot].contains_key(code) ==> 0x30 <= code <= 0x3d,
    ensures
        ({
            let axes = slots[slot];
            let all = frame::restored(queue, slots, slot);
            let first = queue.len() as int;
            &&& all.len() == queue.len() + 2 * axes.dom().len()
            &&& forall|i: int| 0 <= i < queue.len() ==> #[trigger] all[i] == queue[i]
            &&& forall|i: int|
                first <= i < all.len() && (i - first) % 2 == 0 ==> #[trigger] all[i] == (Event {
                    seconds: 0,
                    micros: 0,
                    kind: 3,
                    code: 0x2f,
                    value: slot as i32,
                })
            &&& forall|i: int|
                first <= i < all.len() && (i - first) % 2 == 1 ==> {
                    &&& (#[trigger] all[i]).seconds == 0
                    &&& all[i].micros == 0
                    &&& all[i].kind == 3
                    &&& axes.contains_key(all[i].code)
                    &&& all[i].value == axes[all[i].code]
                    &&& all[i].code == 0x39 <==> i == first + 1
                }
            &&& forall|i: int, j: int|
                first + 1 < i < j < all.len() && (i - first) % 2 == 1 && (j - first) % 2 == 1
                    ==> (#[trigger] all[i]).code < (#[trigger] all[j]).code
            &&& forall|code: u16| #[trigger]
                axes.contains_key(code) ==> exists|i: int|
                    first <= i < all.len() && (i - first) % 2 == 1 && (#[trigger] all[i]).code
                        == code && all[i].value == axes[code]
        }),
{
    let axes = slots[slot];
    let all = frame::restored(queue, slots, slot);
    let first = queue.len() as int;
    let shape = |code: u16| frame::is_shape(code);
    let listed = order::ascending(axes.dom());
    let rest = listed.filter(shape);
    let codes = seq![0x39u16] + rest;
    let events = frame::contact_events(axes);
    order::lemma_ascending(axes.dom());
    lemma_filter_ascending(listed, shape);
    assert forall|k: int| 0 <= k < codes.len() implies axes.contains_key(#[trigger] codes[k]) && (
    codes[k] == 0x39 <==> k == 0) by {
        if k > 0 {
            assert(rest.contains(rest[k - 1]));
        }
    }
    assert forall|k: int| 0 <= k < events.len() implies (#[trigger] events[k]).sets_attribute() by {
        assert(axes.contains_key(codes[k]));
    }
    lemma_queued_attributes(queue, slot, events);
    assert(codes.no_duplicates()) by {
        assert forall|i: int, j: int| 0 <= i < j < codes.len() implies codes[i] != codes[j] by {
            if i > 0 {
                assert(rest[i - 1] < rest[j - 1]);
            } else {
                assert(codes[j] != 0x39);
            }
        }
    }
    codes.unique_seq_to_set();
    assert forall|code: u16| #[trigger] codes.contains(code) <==> axes.contains_key(code) by {
        if axes.contains_key(code) {
            if code == 0x39 {
                assert(codes[0] == code);
            } else {
                assert(listed.contains(code));
                assert(rest.contains(code));
                let k = choose|k: int| 0 <= k < rest.len() && rest[k] == code;
                assert(codes[k + 1] == code);
            }
        }
    }
    assert(codes.to_set() =~= axes.dom());
    assert(events.len() == codes.len());
    assert forall|i: int| first <= i < all.len() && (i - first) % 2 == 0 implies #[trigger] all[i]
        == (Event { seconds: 0, micros: 0, kind: 3, code: 0x2f, value: slot as i32 }) by {
        let k = (i - first) / 2;
        assert(i == first + 2 * k);
        assert(events[k].sets_attribute());
    }
    assert forall|i: int| first <= i < all.len() && (i - first) % 2 == 1 implies {
        &&& (#[trigger] all[i]).seconds == 0
        &&& all[i].micros == 0
        &&& all[i].kind == 3
        &&& axes.contains_key(all[i].code)
        &&& all[i].value == axes[all[i].code]
        &&& all[i].code == 0x39 <==> i == first + 1
    } by {
        let k = (i - first) / 2;
        assert(i == first + 2 * k + 1);
        assert(events[k].sets_attribute());
        assert(axes.contains_key(codes[k]));
    }
    assert forall|i: int, j: int|
        first + 1 < i < j < all.len() && (i - first) % 2 == 1 && (j - first) % 2 == 1 implies (
    #[trigger] all[i]).code < (#[trigger] all[j]).code by {
        let k = (i - first) / 2;
        let l = (j - first) / 2;
        assert(i == first + 2 * k + 1);
        assert(j == first + 2 * l + 1);
        assert(events[k].sets_attribute());
        assert(events[l].sets_attribute());
        assert(rest[k - 1] < rest[l - 1]);
    }
    assert forall|code: u16| #[trigger] axes.contains_key(code) implies exists|i: int|
        first <= i < all.len() && (i - first) % 2 == 1 && (#[trigger] all[i]).code == code
            && all[i].value == axes[code] by {
        assert(codes.contains(code));
        let k = choose|k: int| 0 <= k < codes.len() && codes[k] == code;
        assert(events[k].sets_attribute());
        let i = first + 2 * k + 1;
        assert(all[i].code == code && all[i].value == axes[code]);
        assert((i - first) % 2 == 1);
    }
}

/// Events that are queued for one slot are all in the queue, after what was there, and with them
/// come selections of the slot only.
proof fn lemma_queued_events(queue: Seq<Event>, slot: u16, events: Seq<Event>)
    ensures
        ({
            let all = frame::queued_all(queue, slot, events);
            let first = queue.len() as int;
            &&& queue.len() + events.len() <= all.len()
            &&& forall|i: int| 0 <= i < first ==> #[trigger] all[i] == queue[i]
            &&& forall|k: int|
                0 <= k < events.len() ==> exists|i: int|
                    first <= i < all.len() && all[i] == #[trigger] events[k]
            &&& forall|i: int|
                first <= i < all.len() ==> #[trigger] all[i] == Event::selecting(slot)
                    || events.contains(all[i])
        }),
    decreases events.len(),
{
    if events.len() > 0 {
        let first = queue.len() as int;
        let rest = events.drop_last();
        lemma_queued_events(queue, slot, rest);
        let before = frame::queued_all(queue, slot, rest);
        let all = frame::queued_all(queue, slot, events);
        assert forall|k: int| 0 <= k < events.len() implies exists|i: int|
            first <= i < all.len() && all[i] == #[trigger] events[k] by {
            if k < rest.len() {
                assert(rest[k] == events[k]);
                let i = choose|i: int| first <= i < before.len() && before[i] == rest[k];
                assert(all[i] == events[k]);
            } else {
                assert(all[all.len() - 1] == events[k]);
            }
        }
        assert forall|i: int| first <= i < all.len() implies #[trigger] all[i] == Event::selecting(
            slot,
        ) || events.contains(all[i]) by {
            if i < before.len() {
                assert(all[i] == before[i]);
                if rest.contains(before[i]) {
                    let k = choose|k: int| 0 <= k < rest.len() && rest[k] == before[i];
                    assert(events[k] == all[i]);
                }
            } else if i == all.len() - 1 {
                assert(events[events.len() - 1] == all[i]);
            }
        }
    }
}

/// Whichever axes are on record for a contact, each of them is shown with its value, after what is
/// queued, and nothing else comes with them but selections of the slot.
pub proof fn law_restored_contact_has_every_axis(
    queue: Seq<Event>,
    slots: Map<u16, Map<u16, i32>>,
    slot: u16,
)
    requires
        slots.contains_key(slot),
        slots[slot].contains_key(0x39),
        slots[slot][0x39] >= 0,
    ensures
        ({
            let axes = slots[slot];
            let all = frame::restored(queue, slots, slot);
            let first = queue.len() as int;
            &&& all.len() >= queue.len()
            &&& forall|i: int| 0 <= i < first ==> #[trigger] all[i] == queue[i]
            &&& forall|code: u16| #[trigger]
                axes.contains_key(code) ==> exists|i: int|
                    first <= i < all.len() && #[trigger] all[i] == (Event {
                        seconds: 0,
                        micros: 0,
                        kind: 3,
                        code,
                        value: axes[code],
                    })
            &&& forall|i: int|
                first <= i < all.len() ==> {
                    &&& (#[trigger] all[i]).seconds == 0
                    &&& all[i].micros == 0
                    &&& all[i].kind == 3
                    &&& (all[i].code == 0x2f && all[i].value == slot) || (axes.contains_key(
                        all[i].code,
                    ) && all[i].value == axes[all[i].code])
                }
        }),
{
    let axes = slots[slot];
    let all = frame::restored(queue, slots, slot);
    let first = queue.len() as int;
    let shape = |code: u16| frame::is_shape(code);
    let listed = order::ascending(axes.dom());
    let rest = listed.filter(shape);
    let codes = seq![0x39u16] + rest;
    let events = frame::contact_events(axes);
    order::lemma_ascending(axes.dom());
    lemma_filter_ascending(listed, shape);
    lemma_queued_events(queue, slot, events);
    assert forall|k: int| 0 <= k < events.len() implies axes.contains_key(codes[k])
        && #[trigger] events[k] == (Event {
        seconds: 0,
        micros: 0,
        kind: 3,
        code: codes[k],
        value: axes[codes[k]],
    }) by {
        if k > 0 {
            assert(rest.contains(rest[k - 1]));
        }
    }
    assert forall|code: u16| #[trigger] axes.contains_key(code) implies exists|i: int|
        first <= i < all.len() && #[trigger] all[i] == (Event {
            seconds: 0,
            micros: 0,
            kind: 3,
            code,
            value: axes[code],
        }) by {
        if code == 0x39 {
            assert(events[0].code == code);
            let i = choose|i: int| first <= i < all.len() && all[i] == events[0];
            assert(all[i] == events[0]);
        } else {
            assert(listed.contains(code));
            assert(rest.contains(code));
            let k = choose|k: int| 0 <= k < rest.len() && rest[k] == code;
            assert(codes[k + 1] == code);
            let i = choose|i: int| first <= i < all.len() && all[i] == events[k + 1];
            assert(all[i] == events[k + 1]);
        }
    }
    assert forall|i: int| first <= i < all.len() implies {
        &&& (#[trigger] all[i]).seconds == 0
        &&& all[i].micros == 0
        &&& all[i].kind == 3
        &&& (all[i].code == 0x2f && all[i].value == slot) || (axes.contains_key(all[i].code)
            && all[i].value == axes[all[i].code])
    } by {
        if events.contains(all[i]) {
            let k = choose|k: int| 0 <= k < events.len() && events[k] == all[i];
            assert(axes.contains_key(codes[k]));
        }
    }
}

/// A slot without a finger is not shown.
pub proof fn law_nothing_to_restore(
    queue: Seq<Event>,
    slots: Map<u16, Map<u16, i32>>,
    slot: u16,
)
    requires
        !slots.contains_key(slot) || !slots[slot].contains_key(0x39) || slots[slot][0x39] < 0,
    ensures
        frame::restored(queue, slots, slot) == queue,
{
}

/// The slots that are lifted are those with a finger on record, each once, by ascending slot.
pub proof fn law_active_slots_are_those_with_a_finger(slots: Map<u16, Map<u16, i32>>)
    ensures
        forall|slot: u16| #[trigger]
            frame::active_slots(slots).contains(slot) <==> slots.contains_key(slot)
                && slots[slot].contains_key(0x39) && slots[slot][0x39] >= 0,
        forall|i: int, j: int|
            0 <= i < j < frame::active_slots(slots).len() ==> #[trigger] frame::active_slots(
                slots,
            )[i] < #[trigger] frame::active_slots(slots)[j],
{
    order::lemma_ascending(slots.dom());
    lemma_filter_ascending(
        order::ascending(slots.dom()),
        |slot: u16| frame::finger_down(slots, slot),
    );
}

/// Every lifted contact gives two events after the queue: the selection of its slot and the end
/// of the contact.
pub proof fn law_lifted_contacts_event_by_event(queue: Seq<Event>, released: Seq<u16>)
    ensures
        ({
            let all = frame::lifted(queue, released);
            let first = queue.len() as int;
            &&& all.len() == queue.len() + 2 * released.len()
            &&& forall|i: int| 0 <= i < first ==> #[trigger] all[i] == queue[i]
            &&& forall|i: int|
                first <= i < all.len() ==> {
                    &&& (#[trigger] all[i]).seconds == 0
                    &&& all[i].micros == 0
                    &&& all[i].kind == 3
                    &&& all[i].code == if (i - first) % 2 == 0 {
                        0x2fu16
                    } else {
                        0x39
                    }
                    &&& all[i].value == if (i - first) % 2 == 0 {
                        released[(i - first) / 2] as int
                    } else {
                        -1
                    }
                }
        }),
    decreases released.len(),
{
    if released.len() > 0 {
        let first = queue.len() as int;
        let rest = released.drop_last();
        law_lifted_contacts_event_by_event(queue, rest);
        let before = frame::lifted(queue, rest);
        let all = frame::lifted(queue, released);
        assert(all.len() == before.len() + 2);
        assert forall|i: int| first <= i < all.len() implies {
            &&& (#[trigger] all[i]).seconds == 0
            &&& all[i].micros == 0
            &&& all[i].kind == 3
            &&& all[i].code == if (i - first) % 2 == 0 {
                0x2fu16
            } else {
                0x39
            }
            &&& all[i].value == if (i - first) % 2 == 0 {
                released[(i - first) / 2] as int
            } else {
                -1
            }
        } by {
            if i < before.len() {
                assert(all[i] == before[i]);
            }
        }
    }
}

/// The number of contacts that are forgotten is the larger one of the slots with a finger and of
/// the fingers that were being followed.
pub proof fn law_stale_is_the_larger_count(slots: Map<u16, Map<u16, i32>>, contacts: nat)
    ensures
        frame::stale(slots, contacts) >= contacts,
        frame::stale(slots, contacts) >= frame::active_slots(slots).len(),
        frame::stale(slots, contacts) == contacts || frame::stale(slots, contacts)
            == frame::active_slots(slots).len(),
{
}

} // verus!
