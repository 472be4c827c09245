//! Decides, contact by contact, whether a second finger is a tap or the start of a scroll.

use std::collections::BTreeMap;

use vstd::prelude::*;

verus! {

/// A moment, or a span of time, in nanoseconds.
pub type Nanos = u128;

/// A position on the touchpad, in device units.
#[derive(Clone, Copy, Debug, PartialEq, Eq, Structural)]
pub struct Point {
    pub x: i32,
    pub y: i32,
}

/// A finger that is down: when it landed, where it was first seen and where it is now.
#[derive(Clone, Copy, Debug)]
pub struct Contact {
    pub started: Nanos,
    pub origin: Option<Point>,
    pub current: Option<Point>,
}

/// What becomes of the contact that an event is about.
#[derive(Clone, Copy, Debug, PartialEq, Eq, Structural)]
pub enum Decision {
    /// Forward the event as it is.
    Pass,
    /// Keep the contact in this slot out of the output for now.
    Hide(u16),
    /// The hidden contact in this slot was a tap.
    Click(u16),
    /// The hidden contact in this slot is no tap: show it.
    RestoreForScroll(u16),
}

/// The settings of the gesture. A length is the text of a number of millimetres, which may have a
/// fraction.
#[derive(Debug)]
pub struct Config {
    /// How long the first finger must be down.
    pub min_primary_age: Nanos,
    /// How far the first finger must have moved.
    pub primary_move_mm: String,
    /// How long a second finger can be a tap.
    pub tap_timeout: Nanos,
    /// How far a second finger must move to scroll.
    pub scroll_move_mm: String,
}

/// The meaning of a [`Config`].
pub struct ConfigState {
    pub min_primary_age: Nanos,
    pub primary_move_mm: Seq<char>,
    pub tap_timeout: Nanos,
    pub scroll_move_mm: Seq<char>,
}

impl View for Config {
    type V = ConfigState;

    open spec fn view(&self) -> ConfigState {
        ConfigState {
            min_primary_age: self.min_primary_age,
            primary_move_mm: self.primary_move_mm@,
            tap_timeout: self.tap_timeout,
            scroll_move_mm: self.scroll_move_mm@,
        }
    }
}

/// The number of nanoseconds in a millisecond.
pub const NANOS_PER_MILLI: u128 = 1_000_000;

/// A span of `ms` milliseconds.
pub open spec fn millis(ms: u64) -> Nanos {
    (ms * NANOS_PER_MILLI) as Nanos
}

/// A span of `ms` milliseconds.
pub fn from_millis(ms: u64) -> (r: Nanos)
    ensures
        r == millis(ms),
        r == ms * 1_000_000,
{
    ms as u128 * NANOS_PER_MILLI
}

impl ConfigState {
    /// The settings that hold where nothing else is asked for.
    pub open spec fn defaults() -> ConfigState {
        ConfigState {
            min_primary_age: millis(45),
            primary_move_mm: "1.5"@,
            tap_timeout: millis(140),
            scroll_move_mm: "0.8"@,
        }
    }
}

impl Default for Config {
    fn default() -> (r: Self)
        ensures
            r@ == ConfigState::defaults(),
            r.min_primary_age == 45_000_000,
            r.primary_move_mm@ == "1.5"@,
            r.tap_timeout == 140_000_000,
            r.scroll_move_mm@ == "0.8"@,
    {
        Config {
            min_primary_age: from_millis(45),
            primary_move_mm: "1.5".to_owned(),
            tap_timeout: from_millis(140),
            scroll_move_mm: "0.8".to_owned(),
        }
    }
}

impl Clone for Config {
    fn clone(&self) -> (r: Self)
        ensures
            r == *self,
    {
        Config {
            min_primary_age: self.min_primary_age,
            primary_move_mm: self.primary_move_mm.clone(),
            tap_timeout: self.tap_timeout,
            scroll_move_mm: self.scroll_move_mm.clone(),
        }
    }
}

/// The settings for one touchpad: lengths are in its units.
#[derive(Clone, Copy, Debug)]
pub struct Thresholds {
    pub min_primary_age: Nanos,
    pub primary_move_units: i64,
    pub tap_timeout: Nanos,
    pub scroll_move_units: i64,
}

/// The number of device units in a millimetre: the resolution, and at least one where a touchpad
/// tells none.
pub open spec fn effective_resolution(resolution: i32) -> i32 {
    if resolution < 1 {
        1
    } else {
        resolution
    }
}

/// The number of device units in a millimetre: the resolution, and at least one where a touchpad
/// tells none.
pub fn units_per_mm(resolution: i32) -> (r: i32)
    ensures
        r == effective_resolution(resolution),
        resolution >= 1 ==> r == resolution,
        resolution < 1 ==> r == 1,
{
    if resolution < 1 {
        1
    } else {
        resolution
    }
}

impl Config {
    /// On a touchpad of that resolution these settings are `thresholds`: the times are kept, and
    /// each length is what `scale` makes of it at the effective resolution.
    pub open spec fn scales_to<F: Fn(&String, i32) -> i64>(
        self,
        resolution: i32,
        scale: F,
        thresholds: Thresholds,
    ) -> bool {
        let units = effective_resolution(resolution);
        &&& thresholds.min_primary_age == self.min_primary_age
        &&& thresholds.tap_timeout == self.tap_timeout
        &&& scale.ensures((&self.primary_move_mm, units), thresholds.primary_move_units)
        &&& scale.ensures((&self.scroll_move_mm, units), thresholds.scroll_move_units)
    }

    /// `scale` can be asked for the lengths of these settings.
    pub open spec fn scalable<F: Fn(&String, i32) -> i64>(self, resolution: i32, scale: F) -> bool {
        let units = effective_resolution(resolution);
        &&& scale.requires((&self.primary_move_mm, units))
        &&& scale.requires((&self.scroll_move_mm, units))
    }

    /// These settings on a touchpad of that resolution. `scale` turns the text of a length into
    /// device units, given the number of units in a millimetre.
    pub fn thresholds<F: Fn(&String, i32) -> i64>(&self, resolution: i32, scale: F) -> (r:
        Thresholds)
        requires
            self.scalable(resolution, scale),
        ensures
            self.scales_to(resolution, scale, r),
    {
        let units: i32 = units_per_mm(resolution);
        Thresholds {
            min_primary_age: self.min_primary_age,
            primary_move_units: scale(&self.primary_move_mm, units),
            tap_timeout: self.tap_timeout,
            scroll_move_units: scale(&self.scroll_move_mm, units),
        }
    }
}

/// The square of `a`.
pub open spec fn square(a: int) -> int {
    a * a
}

/// The time from `since` to `now`; none has passed if `now` comes first.
pub open spec fn elapsed(now: Nanos, since: Nanos) -> int {
    if now > since {
        now - since
    } else {
        0
    }
}

impl Contact {
    /// A contact that landed at `now` and has not reported a position yet.
    pub open spec fn landed(now: Nanos) -> Contact {
        Contact { started: now, origin: None, current: None }
    }

    /// The contact after it reported `point`.
    pub open spec fn moved_to(self, point: Point) -> Contact {
        Contact {
            started: self.started,
            origin: if self.origin is None {
                Some(point)
            } else {
                self.origin
            },
            current: Some(point),
        }
    }

    /// The squared distance between the first position and the current one.
    pub open spec fn distance_squared(self) -> int {
        match (self.origin, self.current) {
            (Some(a), Some(b)) => square(b.x - a.x) + square(b.y - a.y),
            _ => 0,
        }
    }

    /// The squared distance between the first position and the current one, or 0 before the
    /// contact has reported any.
    ///
    /// The result is wide enough for any two points.
    pub fn displacement_squared(self) -> (r: i128)
        ensures
            r == self.distance_squared(),
            match (self.origin, self.current) {
                (Some(a), Some(b)) => r == (b.x - a.x) * (b.x - a.x) + (b.y - a.y) * (b.y - a.y),
                _ => r == 0,
            },
    {
        match (self.origin, self.current) {
            (Some(a), Some(b)) => {
                let dx: i128 = b.x as i128 - a.x as i128;
                let dy: i128 = b.y as i128 - a.y as i128;
                proof {
                    lemma_square_bound(dx as int, 0x1_0000_0000);
                    lemma_square_bound(dy as int, 0x1_0000_0000);
                }
                dx * dx + dy * dy
            },
            _ => 0,
        }
    }
}

/// A square is no larger than that of a bound on the absolute value.
proof fn lemma_square_bound(a: int, bound: int)
    by (nonlinear_arith)
    requires
        -bound <= a <= bound,
    ensures
        0 <= a * a <= bound * bound,
{
}

/// The state of a recognizer: the fingers that are down by slot, the hidden one among them with
/// the moment it landed, and the thresholds.
#[verifier::ext_equal]
pub struct RecognizerState {
    pub contacts: Map<u16, Contact>,
    pub pending: Option<(u16, Nanos)>,
    pub min_primary_age: Nanos,
    pub primary_move_squared: int,
    pub tap_timeout: Nanos,
    pub scroll_move_squared: int,
}

impl RecognizerState {
    /// No finger is down and the thresholds are the given ones.
    pub open spec fn fresh(thresholds: Thresholds) -> RecognizerState {
        RecognizerState {
            contacts: Map::empty(),
            pending: None,
            min_primary_age: thresholds.min_primary_age,
            primary_move_squared: square(thresholds.primary_move_units as int),
            tap_timeout: thresholds.tap_timeout,
            scroll_move_squared: square(thresholds.scroll_move_units as int),
        }
    }

    /// A recognizer with these settings, on a touchpad of that resolution, starts in this state.
    pub open spec fn starts<F: Fn(&String, i32) -> i64>(
        self,
        resolution: i32,
        config: Config,
        scale: F,
    ) -> bool {
        exists|thresholds: Thresholds| #[trigger]
            config.scales_to(resolution, scale, thresholds) && self == RecognizerState::fresh(
                thresholds,
            )
    }

    /// A hidden finger is one of exactly two that are down, and is hidden since it landed.
    pub open spec fn valid(self) -> bool {
        &&& self.contacts.dom().finite()
        &&& self.pending matches Some((slot, since)) ==> {
            &&& self.contacts.contains_key(slot)
            &&& self.contacts[slot].started == since
            &&& self.contacts.len() == 2
        }
    }

    /// The slot of the hidden finger.
    pub open spec fn hidden(self) -> Option<u16> {
        match self.pending {
            Some((slot, _)) => Some(slot),
            None => None,
        }
    }

    /// The number of fingers that are down and not hidden.
    pub open spec fn visible(self) -> int {
        self.contacts.len() - if self.pending is Some {
            1int
        } else {
            0
        }
    }

    /// `contact` is down for long enough, and has moved far enough, to be moving the pointer.
    pub open spec fn established(self, contact: Contact, now: Nanos) -> bool {
        &&& elapsed(now, contact.started) >= self.min_primary_age
        &&& contact.distance_squared() >= self.primary_move_squared
    }

    /// A finger that lands in `slot` at `now` joins a single finger that moves the pointer.
    pub open spec fn joins_pointer(self, slot: u16, now: Nanos) -> bool {
        exists|primary: u16|
            primary != slot && self.contacts.dom() == set![primary] && self.established(
                #[trigger] self.contacts[primary],
                now,
            )
    }

    /// The hidden finger can no longer be a tap at `now`.
    pub open spec fn tap_ruled_out(self, now: Nanos) -> bool {
        self.pending matches Some((slot, since)) && (
        self.contacts[slot].distance_squared() >= self.scroll_move_squared || elapsed(now, since)
            >= self.tap_timeout)
    }

    /// A finger lands in `slot` at `now`.
    pub open spec fn touch_down(self, slot: u16, now: Nanos) -> RecognizerState {
        RecognizerState {
            contacts: self.contacts.insert(slot, Contact::landed(now)),
            pending: if self.pending is None && self.joins_pointer(slot, now) {
                Some((slot, now))
            } else {
                None
            },
            ..self
        }
    }

    /// The decision on a finger that lands in `slot` at `now`.
    pub open spec fn touch_down_decision(self, slot: u16, now: Nanos) -> Decision {
        match self.hidden() {
            Some(hidden) => Decision::RestoreForScroll(hidden),
            None => if self.joins_pointer(slot, now) {
                Decision::Hide(slot)
            } else {
                Decision::Pass
            },
        }
    }

    /// The finger in `slot`, if there is one, reports `point`.
    pub open spec fn moved(self, slot: u16, point: Point) -> RecognizerState {
        RecognizerState {
            contacts: if self.contacts.contains_key(slot) {
                self.contacts.insert(slot, self.contacts[slot].moved_to(point))
            } else {
                self.contacts
            },
            ..self
        }
    }

    /// Time has come to `now`.
    pub open spec fn tick(self, now: Nanos) -> RecognizerState {
        RecognizerState {
            pending: if self.tap_ruled_out(now) {
                None
            } else {
                self.pending
            },
            ..self
        }
    }

    /// The decision when time has come to `now`.
    pub open spec fn tick_decision(self, now: Nanos) -> Decision {
        match self.hidden() {
            Some(hidden) => if self.tap_ruled_out(now) {
                Decision::RestoreForScroll(hidden)
            } else {
                Decision::Hide(hidden)
            },
            None => Decision::Pass,
        }
    }

    /// The finger in `slot` leaves.
    pub open spec fn touch_up(self, slot: u16) -> RecognizerState {
        RecognizerState { contacts: self.contacts.remove(slot), pending: None, ..self }
    }

    /// The decision on the finger in `slot` when it leaves.
    pub open spec fn touch_up_decision(self, slot: u16) -> Decision {
        match self.hidden() {
            Some(hidden) => if hidden == slot {
                Decision::Click(slot)
            } else {
                Decision::RestoreForScroll(hidden)
            },
            None => Decision::Pass,
        }
    }

    /// All fingers are forgotten.
    pub open spec fn reset(self) -> RecognizerState {
        RecognizerState { contacts: Map::empty(), pending: None, ..self }
    }
}

/// With one finger down, the finger that another one joins is that one.
proof fn lemma_joins_pointer(state: RecognizerState, slot: u16, now: Nanos)
    requires
        state.contacts.dom().finite(),
    ensures
        state.joins_pointer(slot, now) ==> state.contacts.len() == 1 && exists|other: u16|
            other != slot && #[trigger] state.contacts.contains_key(other) && state.contacts.insert(
                slot,
                Contact::landed(now),
            ).contains_key(other),
        state.contacts.len() == 1 ==> forall|other: u16|
            other != slot && #[trigger] state.contacts.contains_key(other) ==> {
                &&& state.contacts.insert(slot, Contact::landed(now)).len() == 2
                &&& state.joins_pointer(slot, now) == state.established(state.contacts[other], now)
            },
{
    let keys = state.contacts.dom();
    if state.joins_pointer(slot, now) {
        let primary = choose|primary: u16|
            primary != slot && keys == set![primary] && state.established(
                #[trigger] state.contacts[primary],
                now,
            );
        assert(set![primary].contains(primary));
        assert(state.contacts.contains_key(primary));
    }
    if state.contacts.len() == 1 {
        assert forall|other: u16|
            other != slot && #[trigger] state.contacts.contains_key(other) implies {
            &&& state.contacts.insert(slot, Contact::landed(now)).len() == 2
            &&& state.joins_pointer(slot, now) == state.established(state.contacts[other], now)
        } by {
            assert(keys.remove(other).len() == 0);
            assert(keys.remove(other) =~= Set::empty());
            assert(keys =~= set![other]) by {
                assert forall|k: u16| keys.contains(k) implies k == other by {
                    if k != other {
                        assert(keys.remove(other).contains(k));
                    }
                }
            }
            assert(!keys.contains(slot));
            assert(forall|p: u16| keys == set![p] ==> set![p].contains(other) && p == other);
        }
    }
}

/// A finger that lands leaves a valid state.
pub proof fn lemma_touch_down_valid(state: RecognizerState, slot: u16, now: Nanos)
    requires
        state.valid(),
    ensures
        state.touch_down(slot, now).valid(),
{
    lemma_joins_pointer(state, slot, now);
}

/// A report of a position leaves the fingers that are down, and their landing times, as they are.
pub proof fn lemma_moved_valid(state: RecognizerState, slot: u16, point: Point)
    requires
        state.valid(),
    ensures
        state.moved(slot, point).valid(),
        state.moved(slot, point).contacts.dom() == state.contacts.dom(),
{
    assert(state.moved(slot, point).contacts.dom() =~= state.contacts.dom());
}

/// The state machine that tells taps of a second finger from scrolls.
#[derive(Debug)]
pub struct Recognizer {
    contacts: BTreeMap<u16, Contact>,
    pending: Option<(u16, Nanos)>,
    min_primary_age: Nanos,
    primary_move_squared: i128,
    tap_timeout: Nanos,
    scroll_move_squared: i128,
}

impl View for Recognizer {
    type V = RecognizerState;

    closed spec fn view(&self) -> RecognizerState {
        RecognizerState {
            contacts: self.contacts@,
            pending: self.pending,
            min_primary_age: self.min_primary_age,
            primary_move_squared: self.primary_move_squared as int,
            tap_timeout: self.tap_timeout,
            scroll_move_squared: self.scroll_move_squared as int,
        }
    }
}

impl Recognizer {
    /// Every operation keeps this, starting from [`Recognizer::new`].
    pub open spec fn wf(&self) -> bool {
        self@.valid()
    }

    /// A recognizer that has seen no finger yet, for a touchpad of that resolution. `scale` turns
    /// the text of a length into device units, given the number of units in a millimetre.
    pub fn new<F: Fn(&String, i32) -> i64>(resolution: i32, config: &Config, scale: F) -> (r: Self)
        requires
            config.scalable(resolution, scale),
        ensures
            r.wf(),
            r@.starts(resolution, *config, scale),
    {
        Recognizer::with_thresholds(config.thresholds(resolution, scale))
    }

    /// A recognizer that has seen no finger yet.
    pub fn with_thresholds(thresholds: Thresholds) -> (r: Self)
        ensures
            r.wf(),
            r@ == RecognizerState::fresh(thresholds),
    {
        let primary: i128 = thresholds.primary_move_units as i128;
        let scroll: i128 = thresholds.scroll_move_units as i128;
        proof {
            lemma_square_bound(primary as int, 0x8000_0000_0000_0000);
            lemma_square_bound(scroll as int, 0x8000_0000_0000_0000);
        }
        Recognizer {
            contacts: BTreeMap::new(),
            pending: None,
            min_primary_age: thresholds.min_primary_age,
            primary_move_squared: primary * primary,
            tap_timeout: thresholds.tap_timeout,
            scroll_move_squared: scroll * scroll,
        }
    }

    /// The contact of some finger in another slot than `slot`.
    fn other_contact(&self, slot: u16) -> (r: Option<Contact>)
        ensures
            match r {
                Some(contact) => exists|other: u16|
                    other != slot && self@.contacts.contains_key(other) && contact
                        == #[trigger] self@.contacts[other],
                None => forall|other: u16| self@.contacts.contains_key(other) ==> other == slot,
            },
    {
        for entry in iter: self.contacts.iter()
            invariant
                forall|i: int| 0 <= i < iter.index() ==> *(#[trigger] iter.seq()[i]).0 == slot,
                forall|i: int|
                    0 <= i < iter.seq().len() ==> self@.contacts.contains_key(
                        *(#[trigger] iter.seq()[i]).0,
                    ) && self@.contacts[*iter.seq()[i].0] == *iter.seq()[i].1,
                forall|k: u16| #[trigger] self@.contacts.contains_key(k) ==> iter.seq().contains(
                    (&k, &self@.contacts[k]),
                ),
        {
            let (other, contact) = entry;
            if *other != slot {
                return Some(*contact);
            }
        }
        None
    }

    /// A finger landed in `slot` at `now`.
    pub fn touch_down(&mut self, slot: u16, _tracking_id: i32, now: Nanos) -> (decision: Decision)
        requires
            old(self).wf(),
        ensures
            final(self).wf(),
            final(self)@ == old(self)@.touch_down(slot, now),
            decision == old(self)@.touch_down_decision(slot, now),
    {
        let active_before: usize = self.contacts.len();
        self.contacts.insert(slot, Contact { started: now, origin: None, current: None });
        proof {
            lemma_joins_pointer(old(self)@, slot, now);
        }

        if let Some((pending_slot, _)) = self.pending.take() {
            return Decision::RestoreForScroll(pending_slot);
        }
        if active_before == 1 {
            if let Some(primary) = self.other_contact(slot) {
                if now.saturating_sub(primary.started) >= self.min_primary_age
                    && primary.displacement_squared() >= self.primary_move_squared {
                    self.pending = Some((slot, now));
                    return Decision::Hide(slot);
                }
            }
        }
        Decision::Pass
    }

    /// The finger in `slot` reported `point` at `now`.
    pub fn position(&mut self, slot: u16, point: Point, now: Nanos) -> (decision: Decision)
        requires
            old(self).wf(),
        ensures
            final(self).wf(),
            final(self)@ == old(self)@.moved(slot, point).tick(now),
            decision == old(self)@.moved(slot, point).tick_decision(now),
    {
        let known: Option<Contact> = match self.contacts.get(&slot) {
            Some(contact) => Some(*contact),
            None => None,
        };
        if let Some(mut contact) = known {
            if contact.origin.is_none() {
                contact.origin = Some(point);
            }
            contact.current = Some(point);
            self.contacts.insert(slot, contact);
        }
        proof {
            lemma_moved_valid(old(self)@, slot, point);
        }
        self.classify(now)
    }

    /// Time has come to `now` and no finger reported anything.
    pub fn tick(&mut self, now: Nanos) -> (decision: Decision)
        requires
            old(self).wf(),
        ensures
            final(self).wf(),
            final(self)@ == old(self)@.tick(now),
            decision == old(self)@.tick_decision(now),
    {
        self.classify(now)
    }

    /// Shows the hidden finger again if it can no longer be a tap at `now`.
    fn classify(&mut self, now: Nanos) -> (decision: Decision)
        requires
            old(self).wf(),
        ensures
            final(self).wf(),
            final(self)@ == old(self)@.tick(now),
            decision == old(self)@.tick_decision(now),
    {
        let (slot, started) = match self.pending {
            Some(pending) => pending,
            None => {
                return Decision::Pass;
            },
        };
        let contact: Contact = match self.contacts.get(&slot) {
            Some(contact) => *contact,
            None => {
                return Decision::Pass;
            },
        };
        if contact.displacement_squared() >= self.scroll_move_squared || now.saturating_sub(started)
            >= self.tap_timeout {
            self.pending = None;
            return Decision::RestoreForScroll(slot);
        }
        Decision::Hide(slot)
    }

    /// The finger in `slot` left.
    pub fn touch_up(&mut self, slot: u16) -> (decision: Decision)
        requires
            old(self).wf(),
        ensures
            final(self).wf(),
            final(self)@ == old(self)@.touch_up(slot),
            decision == old(self)@.touch_up_decision(slot),
    {
        self.contacts.remove(&slot);
        match self.pending.take() {
            Some((pending, _)) => if pending == slot {
                Decision::Click(slot)
            } else {
                Decision::RestoreForScroll(pending)
            },
            None => Decision::Pass,
        }
    }

    /// Forgets all fingers and keeps the thresholds.
    pub fn reset(&mut self)
        ensures
            final(self).wf(),
            final(self)@ == old(self)@.reset(),
    {
        self.contacts.clear();
        self.pending = None;
    }

    /// The slot of the hidden finger.
    pub fn pending_slot(&self) -> (r: Option<u16>)
        ensures
            r == self@.hidden(),
            r is Some <==> self@.pending is Some,
            self@.pending matches Some(p) ==> r == Some(p.0),
    {
        match self.pending {
            Some((slot, _)) => Some(slot),
            None => None,
        }
    }

    /// The number of fingers that are down, hidden or not.
    pub fn contact_count(&self) -> (r: usize)
        ensures
            r == self@.contacts.len(),
    {
        self.contacts.len()
    }

    /// The number of fingers that are down and not hidden.
    pub fn visible_contacts(&self) -> (r: usize)
        requires
            self.wf(),
        ensures
            r == self@.visible(),
            self@.pending is None ==> r == self@.contacts.len(),
            self@.pending is Some ==> r == self@.contacts.len() - 1,
    {
        let hidden: usize = if self.pending.is_some() {
            1
        } else {
            0
        };
        self.contacts.len() - hidden
    }
}

} // verus!
