//! The filter itself: takes the events of the touchpad and says what the virtual device emits.

use std::collections::BTreeMap;

use vstd::prelude::*;

use crate::codes::{
    ABS_MT_POSITION_X, ABS_MT_POSITION_Y, ABS_MT_SLOT, ABS_MT_TRACKING_ID, BTN_LEFT, BTN_TOUCH,
    EV_ABS, EV_KEY, EV_SYN, SYN_REPORT,
};
use crate::event;
use crate::event::{is_mt_attribute, is_tool_count, Event};
use crate::frame;
use crate::frame::{
    queue_event, reset_after_all_fingers_lifted, restore_contact, take_report, SlotState,
};
use crate::order;
use crate::order::keys_in_order;
use crate::recognizer;
use crate::recognizer::{Config, Decision, Nanos, Point, Recognizer, RecognizerState, Thresholds};

verus! {

/// What the filter wants done.
#[derive(Debug)]
pub enum Action {
    /// Emit these events as one report.
    Emit(Vec<Event>),
    /// This many contacts were released because all fingers left without saying so.
    Resynchronized(usize),
}

/// What an [`Action`] asks for.
pub enum Output {
    Emit(Seq<Event>),
    Resynchronized(nat),
}

impl View for Action {
    type V = Output;

    open spec fn view(&self) -> Output {
        match self {
            Action::Emit(events) => Output::Emit(events@),
            Action::Resynchronized(count) => Output::Resynchronized(*count as nat),
        }
    }
}

/// What `actions` ask for, in their order.
pub open spec fn outputs(actions: Seq<Action>) -> Seq<Output> {
    actions.map_values(|action: Action| action@)
}

/// The state of the filter: the recognizer, the axes of each slot, the slot that the touchpad
/// has selected, and the events queued for the next report.
#[verifier::ext_equal]
pub struct SessionState {
    pub recognizer: RecognizerState,
    pub slots: Map<u16, Map<u16, i32>>,
    pub current_slot: u16,
    pub frame: Seq<Event>,
}

/// The end of a report of the touchpad.
pub open spec fn ends_report(event: Event) -> bool {
    event.kind == EV_SYN && event.code == SYN_REPORT
}

/// A contact begins or ends in the selected slot.
pub open spec fn tracks_contact(event: Event) -> bool {
    event.kind == EV_ABS && event.code == ABS_MT_TRACKING_ID
}

/// The touchpad says that no finger is left.
pub open spec fn all_fingers_left(event: Event) -> bool {
    event.kind == EV_KEY && event.code == BTN_TOUCH && event.value == 0
}

/// The press or the release of the left button, as a report of its own.
pub open spec fn left_button(value: i32) -> Output {
    Output::Emit(seq![Event::made(EV_KEY, BTN_LEFT, value)])
}

impl SessionState {
    /// The touchpad has said nothing yet.
    pub open spec fn fresh(thresholds: Thresholds) -> SessionState {
        SessionState {
            recognizer: RecognizerState::fresh(thresholds),
            slots: Map::empty(),
            current_slot: 0,
            frame: Seq::empty(),
        }
    }

    /// The axes on record for `slot`.
    pub open spec fn axes(self, slot: u16) -> Map<u16, i32> {
        if self.slots.contains_key(slot) {
            self.slots[slot]
        } else {
            Map::empty()
        }
    }

    /// An attribute is put on record for the selected slot, whether or not it is forwarded.
    pub open spec fn recorded(self, event: Event) -> SessionState {
        if event.sets_attribute() {
            SessionState {
                slots: self.slots.insert(
                    self.current_slot,
                    self.axes(self.current_slot).insert(event.code, event.value),
                ),
                ..self
            }
        } else {
            self
        }
    }

    /// A selection of a slot takes effect.
    pub open spec fn selected(self, event: Event) -> SessionState {
        if event.selects_slot() {
            SessionState { current_slot: event.value as u16, ..self }
        } else {
            self
        }
    }

    /// The decision on the contact that `event` is about.
    pub open spec fn decision(self, event: Event, now: Nanos) -> Decision {
        if !tracks_contact(event) {
            Decision::Pass
        } else if event.value >= 0 {
            self.recognizer.touch_down_decision(self.current_slot, now)
        } else {
            self.recognizer.touch_up_decision(self.current_slot)
        }
    }

    /// The recognizer learns of a contact that begins or ends.
    pub open spec fn recognized(self, event: Event, now: Nanos) -> SessionState {
        if !tracks_contact(event) {
            self
        } else {
            SessionState {
                recognizer: if event.value >= 0 {
                    self.recognizer.touch_down(self.current_slot, now)
                } else {
                    self.recognizer.touch_up(self.current_slot)
                },
                ..self
            }
        }
    }

    /// Every contact is released and forgotten.
    pub open spec fn cleared(self) -> SessionState {
        SessionState {
            recognizer: self.recognizer.reset(),
            slots: Map::empty(),
            frame: frame::lifted(self.frame, frame::active_slots(self.slots)),
            ..self
        }
    }

    /// The number of contacts that [`SessionState::cleared`] forgets.
    pub open spec fn stale_contacts(self) -> nat {
        frame::stale(self.slots, self.recognizer.contacts.len())
    }

    /// If `decision` says so, the hidden contact is shown.
    pub open spec fn shown(self, decision: Decision) -> SessionState {
        match decision {
            Decision::RestoreForScroll(slot) => SessionState {
                frame: frame::restored(self.frame, self.slots, slot),
                ..self
            },
            _ => self,
        }
    }

    /// The event is about a contact that is hidden, or that was until it became a click.
    pub open spec fn conceals(self, event: Event, decision: Decision) -> bool {
        event.kind == EV_ABS && (self.recognizer.hidden() == Some(self.current_slot) || decision
            == Decision::Click(self.current_slot))
    }

    /// The event is queued, unless it is concealed or counts fingers.
    pub open spec fn forwarded(self, event: Event, decision: Decision) -> SessionState {
        if self.conceals(event, decision) || event.counts_fingers() {
            self
        } else {
            SessionState {
                frame: frame::queued(self.frame, self.current_slot, event),
                ..self
            }
        }
    }

    /// The frame has been handed out.
    pub open spec fn closed_frame(self) -> SessionState {
        SessionState { frame: Seq::empty(), ..self }
    }

    /// The frame as a report, with the count of the visible fingers.
    pub open spec fn report(self) -> Output {
        Output::Emit(self.frame + frame::count_events(self.recognizer.visible()))
    }

    /// The position on record for `slot` is complete.
    pub open spec fn has_position(self, slot: u16) -> bool {
        &&& self.slots.contains_key(slot)
        &&& self.slots[slot].contains_key(ABS_MT_POSITION_X)
        &&& self.slots[slot].contains_key(ABS_MT_POSITION_Y)
    }

    /// The position on record for `slot`.
    pub open spec fn position(self, slot: u16) -> Point {
        Point {
            x: self.slots[slot][ABS_MT_POSITION_X],
            y: self.slots[slot][ABS_MT_POSITION_Y],
        }
    }

    /// The recognizer learns of the position on record for `slot`.
    pub open spec fn located(self, slot: u16, now: Nanos) -> SessionState {
        if self.has_position(slot) {
            let moved = self.recognizer.moved(slot, self.position(slot));
            SessionState { recognizer: moved.tick(now), ..self }.shown(moved.tick_decision(now))
        } else {
            self
        }
    }

    /// The recognizer learns of the positions on record for `slots`, in their order.
    pub open spec fn located_all(self, slots: Seq<u16>, now: Nanos) -> SessionState
        decreases slots.len(),
    {
        if slots.len() == 0 {
            self
        } else {
            self.located_all(slots.drop_last(), now).located(slots.last(), now)
        }
    }

    /// The state at the end of a report, before the frame is handed out: only complete positions
    /// have been looked at, by ascending slot.
    pub open spec fn settled(self, now: Nanos) -> SessionState {
        self.located_all(order::ascending(self.slots.dom()), now)
    }

    /// The state that an event other than the end of a report leads to, before a click is made.
    pub open spec fn processed(self, event: Event, now: Nanos) -> SessionState {
        let noted = self.recorded(event).selected(event);
        let decision = noted.decision(event, now);
        let recognized = noted.recognized(event, now);
        let current = if all_fingers_left(event) {
            recognized.cleared()
        } else {
            recognized
        };
        current.shown(decision).forwarded(event, decision)
    }

    /// The event ends a tap.
    pub open spec fn clicks(self, event: Event, now: Nanos) -> bool {
        self.recorded(event).selected(event).decision(event, now) is Click
    }

    /// The state that `event` leads to.
    pub open spec fn next(self, event: Event, now: Nanos) -> SessionState {
        if ends_report(event) {
            self.settled(now).closed_frame()
        } else if self.clicks(event, now) {
            self.processed(event, now).closed_frame()
        } else {
            self.processed(event, now)
        }
    }

    /// What `event` makes the filter do.
    pub open spec fn reaction(self, event: Event, now: Nanos) -> Seq<Output> {
        if ends_report(event) {
            seq![self.settled(now).report()]
        } else if self.clicks(event, now) {
            seq![self.processed(event, now).report(), left_button(1), left_button(0)]
        } else if all_fingers_left(event) && self.stale_contacts() > 0 {
            seq![Output::Resynchronized(self.stale_contacts())]
        } else {
            Seq::empty()
        }
    }

    /// The state after a wait without events.
    pub open spec fn idle(self, now: Nanos) -> SessionState {
        let ticked = SessionState { recognizer: self.recognizer.tick(now), ..self };
        if self.recognizer.tap_ruled_out(now) {
            ticked.shown(self.recognizer.tick_decision(now)).closed_frame()
        } else {
            ticked
        }
    }

    /// What a wait without events makes the filter do.
    pub open spec fn idle_reaction(self, now: Nanos) -> Seq<Output> {
        let ticked = SessionState { recognizer: self.recognizer.tick(now), ..self };
        if self.recognizer.tap_ruled_out(now) {
            seq![ticked.shown(self.recognizer.tick_decision(now)).report()]
        } else {
            Seq::empty()
        }
    }

    /// The state that `input` leads to.
    pub open spec fn step(self, input: Input) -> SessionState {
        match input {
            Input::Event(event, now) => self.next(event, now),
            Input::Silence(now) => self.idle(now),
        }
    }

    /// What `input` makes the filter do.
    pub open spec fn step_outputs(self, input: Input) -> Seq<Output> {
        match input {
            Input::Event(event, now) => self.reaction(event, now),
            Input::Silence(now) => self.idle_reaction(now),
        }
    }

    /// The state that `inputs` lead to, one after the other.
    pub open spec fn run(self, inputs: Seq<Input>) -> SessionState
        decreases inputs.len(),
    {
        if inputs.len() == 0 {
            self
        } else {
            self.run(inputs.drop_last()).step(inputs.last())
        }
    }

    /// What `inputs` make the filter do, one after the other.
    pub open spec fn run_outputs(self, inputs: Seq<Input>) -> Seq<Output>
        decreases inputs.len(),
    {
        if inputs.len() == 0 {
            Seq::empty()
        } else {
            self.run_outputs(inputs.drop_last()) + self.run(inputs.drop_last()).step_outputs(
                inputs.last(),
            )
        }
    }

    /// The recognizer and the slots agree on which fingers are down, slots have multitouch axes
    /// only, and the frame selects a slot before each attribute and counts no fingers.
    pub open spec fn valid(self) -> bool {
        &&& self.recognizer.valid()
        &&& forall|slot: u16| #[trigger]
            self.recognizer.contacts.contains_key(slot) <==> frame::finger_down(self.slots, slot)
        &&& forall|slot: u16, code: u16|
            self.slots.contains_key(slot) && #[trigger] self.slots[slot].contains_key(code)
                ==> event::mt_attribute(code)
        &&& frame::self_addressed(self.frame)
        &&& frame::counts_nothing(self.frame)
    }
}

/// What comes in from the touchpad.
pub enum Input {
    /// An event, at a moment.
    Event(Event, Nanos),
    /// Nothing, until a moment.
    Silence(Nanos),
}

/// What a wait that ended at `now` brought in.
pub open spec fn polled(events: Seq<Event>, now: Nanos) -> Seq<Input> {
    if events.len() == 0 {
        seq![Input::Silence(now)]
    } else {
        events.map_values(|event: Event| Input::Event(event, now))
    }
}

/// Looking at a position leaves a valid state.
proof fn lemma_located_valid(state: SessionState, slot: u16, now: Nanos)
    requires
        state.valid(),
    ensures
        state.located(slot, now).valid(),
        state.located(slot, now).slots == state.slots,
{
    if state.has_position(slot) {
        let moved = state.recognizer.moved(slot, state.position(slot));
        recognizer::lemma_moved_valid(state.recognizer, slot, state.position(slot));
        assert(forall|s: u16| #[trigger]
            moved.contacts.contains_key(s) == state.recognizer.contacts.contains_key(s));
        match moved.tick_decision(now) {
            Decision::RestoreForScroll(hidden) => {
                frame::lemma_restored(state.frame, state.slots, hidden);
            },
            _ => {},
        }
    }
}

/// Looking at positions leaves a valid state.
pub proof fn lemma_located_all_valid(state: SessionState, slots: Seq<u16>, now: Nanos)
    requires
        state.valid(),
    ensures
        state.located_all(slots, now).valid(),
        state.located_all(slots, now).slots == state.slots,
    decreases slots.len(),
{
    if slots.len() > 0 {
        lemma_located_all_valid(state, slots.drop_last(), now);
        lemma_located_valid(state.located_all(slots.drop_last(), now), slots.last(), now);
    }
}

/// An event other than the end of a report leaves a valid state.
pub proof fn lemma_processed_valid(state: SessionState, event: Event, now: Nanos)
    requires
        state.valid(),
        !ends_report(event),
    ensures
        state.processed(event, now).valid(),
{
    let noted = state.recorded(event).selected(event);
    let decision = noted.decision(event, now);
    let recognized = noted.recognized(event, now);
    let current = if all_fingers_left(event) {
        recognized.cleared()
    } else {
        recognized
    };
    let slot = state.current_slot;
    if tracks_contact(event) {
        recognizer::lemma_touch_down_valid(state.recognizer, slot, now);
        assert(frame::finger_down(noted.slots, slot) == (event.value >= 0));
    }
    assert(recognized.recognizer.valid());
    assert forall|s: u16| #[trigger]
        recognized.recognizer.contacts.contains_key(s) <==> frame::finger_down(
            recognized.slots,
            s,
        ) by {
        assert(state.recognizer.contacts.contains_key(s) <==> frame::finger_down(state.slots, s));
    }
    assert forall|s: u16, code: u16|
        recognized.slots.contains_key(s) && #[trigger] recognized.slots[s].contains_key(
            code,
        ) implies event::mt_attribute(code) by {
        if s == slot && event.sets_attribute() {
            if code != event.code {
                assert(state.slots.contains_key(s) && state.slots[s].contains_key(code));
            }
        } else {
            assert(state.slots.contains_key(s) && state.slots[s].contains_key(code));
        }
    }
    if all_fingers_left(event) {
        frame::lemma_lifted(state.frame, frame::active_slots(state.slots));
    }
    assert(current.valid());
    match decision {
        Decision::RestoreForScroll(hidden) => {
            frame::lemma_restored(current.frame, current.slots, hidden);
        },
        _ => {},
    }
}

/// Every input leaves a valid state.
pub proof fn lemma_step_valid(state: SessionState, input: Input)
    requires
        state.valid(),
    ensures
        state.step(input).valid(),
{
    match input {
        Input::Event(event, now) => {
            if ends_report(event) {
                lemma_located_all_valid(state, order::ascending(state.slots.dom()), now);
            } else {
                lemma_processed_valid(state, event, now);
            }
        },
        Input::Silence(now) => {},
    }
}

/// The press or the release of the left button, as a report of its own.
fn click_action(value: i32) -> (r: Action)
    ensures
        r@ == left_button(value),
{
    let mut events: Vec<Event> = Vec::new();
    events.push(Event::new(EV_KEY, BTN_LEFT, value));
    proof {
        assert(events@ =~= seq![Event::made(EV_KEY, BTN_LEFT, value)]);
    }
    Action::Emit(events)
}

/// A filter between a touchpad and its virtual twin.
#[derive(Debug)]
pub struct Session {
    recognizer: Recognizer,
    slots: BTreeMap<u16, SlotState>,
    current_slot: u16,
    frame: Vec<Event>,
}

impl View for Session {
    type V = SessionState;

    closed spec fn view(&self) -> SessionState {
        SessionState {
            recognizer: self.recognizer@,
            slots: frame::axes_by_slot(self.slots@),
            current_slot: self.current_slot,
            frame: self.frame@,
        }
    }
}

impl Session {
    pub open spec fn wf(&self) -> bool {
        self@.valid()
    }

    /// A filter for a touchpad of that resolution that has said nothing yet. `scale` turns the text
    /// of a length into device units, given the number of units in a millimetre.
    pub fn new<F: Fn(&String, i32) -> i64>(resolution: i32, config: &Config, scale: F) -> (r: Self)
        requires
            config.scalable(resolution, scale),
        ensures
            r.wf(),
            exists|thresholds: Thresholds| #[trigger]
                config.scales_to(resolution, scale, thresholds) && r@ == SessionState::fresh(
                    thresholds,
                ),
    {
        Session::with_thresholds(config.thresholds(resolution, scale))
    }

    /// A filter for a touchpad that has said nothing yet.
    pub fn with_thresholds(thresholds: Thresholds) -> (r: Self)
        ensures
            r.wf(),
            r@ == SessionState::fresh(thresholds),
    {
        let r = Session {
            recognizer: Recognizer::with_thresholds(thresholds),
            slots: BTreeMap::new(),
            current_slot: 0,
            frame: Vec::new(),
        };
        proof {
            assert(frame::axes_by_slot(r.slots@) =~= Map::empty());
        }
        r
    }

    /// Puts an attribute on record for the selected slot.
    fn record(&mut self, code: u16, value: i32)
        ensures
            final(self)@ == (SessionState {
                slots: old(self)@.slots.insert(
                    old(self)@.current_slot,
                    old(self)@.axes(old(self)@.current_slot).insert(code, value),
                ),
                ..old(self)@
            }),
    {
        let mut state: SlotState = match self.slots.remove(&self.current_slot) {
            Some(state) => state,
            None => SlotState::default(),
        };
        state.axes.insert(code, value);
        self.slots.insert(self.current_slot, state);
        proof {
            assert(frame::axes_by_slot(self.slots@) =~= old(self)@.slots.insert(
                old(self)@.current_slot,
                old(self)@.axes(old(self)@.current_slot).insert(code, value),
            ));
        }
    }

    /// Tells the recognizer the position on record for `slot`, and shows the hidden contact if it
    /// is no tap.
    fn locate(&mut self, slot: u16, now: Nanos)
        requires
            old(self).wf(),
        ensures
            final(self).wf(),
            final(self)@ == old(self)@.located(slot, now),
    {
        proof {
            lemma_located_valid(self@, slot, now);
        }
        let point: Point = match self.slots.get(&slot) {
            Some(state) => match (
                state.axes.get(&ABS_MT_POSITION_X),
                state.axes.get(&ABS_MT_POSITION_Y),
            ) {
                (Some(x), Some(y)) => Point { x: *x, y: *y },
                _ => {
                    return ;
                },
            },
            None => {
                return ;
            },
        };
        if let Decision::RestoreForScroll(pending) = self.recognizer.position(slot, point, now) {
            restore_contact(&mut self.frame, &self.slots, pending);
        }
    }

    /// Looks at all complete positions, never at a new X paired with an old Y.
    fn settle(&mut self, now: Nanos)
        requires
            old(self).wf(),
        ensures
            final(self).wf(),
            final(self)@ == old(self)@.settled(now),
    {
        let slots: Vec<u16> = keys_in_order(&self.slots);
        proof {
            assert(self.slots@.dom() =~= self@.slots.dom());
        }
        for i in 0..slots.len()
            invariant
                self.wf(),
                self@ == old(self)@.located_all(slots@.take(i as int), now),
        {
            proof {
                assert(slots@.take(i + 1).drop_last() =~= slots@.take(i as int));
            }
            self.locate(slots[i], now);
        }
        proof {
            assert(slots@.take(slots@.len() as int) =~= slots@);
        }
    }

    /// Hands out the frame.
    fn close_frame(&mut self) -> (action: Action)
        requires
            old(self)@.recognizer.valid(),
        ensures
            final(self)@ == old(self)@.closed_frame(),
            action@ == old(self)@.report(),
    {
        Action::Emit(take_report(&mut self.frame, &self.recognizer))
    }

    /// The touchpad sent `event` at `now`.
    pub fn handle(&mut self, event: Event, now: Nanos) -> (actions: Vec<Action>)
        requires
            old(self).wf(),
        ensures
            final(self).wf(),
            final(self)@ == old(self)@.next(event, now),
            outputs(actions@) == old(self)@.reaction(event, now),
    {
        proof {
            lemma_step_valid(self@, Input::Event(event, now));
        }
        let mut actions: Vec<Action> = Vec::new();
        if event.kind == EV_SYN && event.code == SYN_REPORT {
            self.settle(now);
            actions.push(self.close_frame());
            return actions;
        }
        let mut decision: Decision = Decision::Pass;
        if event.kind == EV_ABS {
            if is_mt_attribute(event.code) {
                self.record(event.code, event.value);
            }
            if event.code == ABS_MT_SLOT {
                self.current_slot = #[verifier::truncate] (event.value as u16);
            } else if event.code == ABS_MT_TRACKING_ID {
                decision = if event.value >= 0 {
                    self.recognizer.touch_down(self.current_slot, event.value, now)
                } else {
                    self.recognizer.touch_up(self.current_slot)
                };
            }
        }
        if event.kind == EV_KEY && event.code == BTN_TOUCH && event.value == 0 {
            let stale_contacts: usize = reset_after_all_fingers_lifted(
                &mut self.frame,
                &mut self.slots,
                &mut self.recognizer,
            );
            proof {
                assert(frame::axes_by_slot(self.slots@) =~= Map::empty());
            }
            if stale_contacts > 0 {
                actions.push(Action::Resynchronized(stale_contacts));
            }
        }
        if let Decision::RestoreForScroll(slot) = decision {
            restore_contact(&mut self.frame, &self.slots, slot);
        }
        let pending: Option<u16> = self.recognizer.pending_slot();
        let concealed: bool = event.kind == EV_ABS && (pending == Some(self.current_slot)
            || decision == Decision::Click(self.current_slot));
        if !concealed && !is_tool_count(event) {
            queue_event(&mut self.frame, self.current_slot, event);
        }
        if let Decision::Click(_) = decision {
            actions.push(self.close_frame());
            actions.push(click_action(1));
            actions.push(click_action(0));
        }
        proof {
            assert(outputs(actions@) =~= old(self)@.reaction(event, now));
        }
        actions
    }

    /// The touchpad sent nothing until `now`.
    pub fn idle(&mut self, now: Nanos) -> (actions: Vec<Action>)
        requires
            old(self).wf(),
        ensures
            final(self).wf(),
            final(self)@ == old(self)@.idle(now),
            outputs(actions@) == old(self)@.idle_reaction(now),
    {
        proof {
            lemma_step_valid(self@, Input::Silence(now));
        }
        let mut actions: Vec<Action> = Vec::new();
        if let Decision::RestoreForScroll(slot) = self.recognizer.tick(now) {
            restore_contact(&mut self.frame, &self.slots, slot);
            actions.push(self.close_frame());
        }
        proof {
            assert(outputs(actions@) =~= old(self)@.idle_reaction(now));
        }
        actions
    }

    /// A wait for the touchpad ended at `now` with `events`, or with none.
    pub fn poll(&mut self, events: &Vec<Event>, now: Nanos) -> (actions: Vec<Action>)
        requires
            old(self).wf(),
        ensures
            final(self).wf(),
            final(self)@ == old(self)@.run(polled(events@, now)),
            outputs(actions@) == old(self)@.run_outputs(polled(events@, now)),
    {
        let ghost inputs = polled(events@, now);
        if events.len() == 0 {
            proof {
                reveal_with_fuel(SessionState::run, 2);
                reveal_with_fuel(SessionState::run_outputs, 2);
                assert(inputs.drop_last() =~= Seq::empty());
            }
            return self.idle(now);
        }
        let mut actions: Vec<Action> = Vec::new();
        proof {
            assert(outputs(actions@) =~= Seq::empty());
        }
        for i in 0..events.len()
            invariant
                self.wf(),
                inputs == polled(events@, now),
                self@ == old(self)@.run(inputs.take(i as int)),
                outputs(actions@) == old(self)@.run_outputs(inputs.take(i as int)),
        {
            let ghost before = actions@;
            let mut more: Vec<Action> = self.handle(events[i], now);
            let ghost added = more@;
            actions.append(&mut more);
            proof {
                assert(inputs.take(i + 1).drop_last() =~= inputs.take(i as int));
                assert(outputs(actions@) =~= outputs(before) + outputs(added));
            }
        }
        proof {
            assert(inputs.take(events@.len() as int) =~= inputs);
        }
        actions
    }
}

} // verus!
