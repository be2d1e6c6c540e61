//! Motion semantics, their families and the per-poll arbitration that keeps
//! one description per physical act.
use vstd::prelude::*;

use super::MotionSample;

verus! {

/// A tilt direction relative to gravity. Roll drives left/right, pitch up/down.
#[derive(Debug, Clone, Copy, PartialEq, Eq, Structural)]
pub enum TiltDir {
    Left,
    Right,
    Up,
    Down,
}

/// A hardware-independent motion semantic: the contract is the meaning,
/// never the register or the threshold that raised it.
#[derive(Debug, Clone, Copy, PartialEq, Eq, Structural)]
pub enum MotionEvent {
    /// A mechanical knock, with the multi-knock count its gesture window
    /// produced. Not a screen touch: the two planes are never folded together.
    Tap { count: u8 },
    Still,
    Moving,
    Activity,
    Step,
    TiltEnter(TiltDir),
    TiltExit(TiltDir),
    Shake,
    Lift,
    Place,
    Portrait,
    Landscape,
}

/// Mutually exclusive semantic families: two candidates from one family
/// describe one physical act.
#[derive(Debug, Clone, Copy, PartialEq, Eq, Structural)]
pub enum MotionGroup {
    State,
    Pose,
    Action,
}

pub open spec fn event_group(event: MotionEvent) -> MotionGroup {
    match event {
        MotionEvent::Still | MotionEvent::Moving | MotionEvent::Activity | MotionEvent::Step => {
            MotionGroup::State
        },
        MotionEvent::TiltEnter(_) | MotionEvent::TiltExit(_) | MotionEvent::Portrait
        | MotionEvent::Landscape => MotionGroup::Pose,
        MotionEvent::Tap { .. } | MotionEvent::Shake | MotionEvent::Lift | MotionEvent::Place => {
            MotionGroup::Action
        },
    }
}

/// Rank inside a family: a shake subsumes the tilt chatter it causes, a
/// lift/place outranks the orientation change that comes with it.
pub open spec fn event_priority(event: MotionEvent) -> u8 {
    match event {
        MotionEvent::Shake => 100,
        MotionEvent::Lift | MotionEvent::Place => 80,
        MotionEvent::TiltEnter(_) | MotionEvent::TiltExit(_) => 60,
        MotionEvent::Portrait | MotionEvent::Landscape => 50,
        MotionEvent::Tap { .. } => 40,
        MotionEvent::Step => 35,
        MotionEvent::Activity => 30,
        MotionEvent::Moving | MotionEvent::Still => 20,
    }
}

pub open spec fn group_index(group: MotionGroup) -> int {
    match group {
        MotionGroup::State => 0,
        MotionGroup::Pose => 1,
        MotionGroup::Action => 2,
    }
}

impl MotionEvent {
    pub fn group(self) -> (g: MotionGroup)
        ensures
            g == event_group(self),
    {
        match self {
            MotionEvent::Still | MotionEvent::Moving | MotionEvent::Activity
            | MotionEvent::Step => MotionGroup::State,
            MotionEvent::TiltEnter(_) | MotionEvent::TiltExit(_) | MotionEvent::Portrait
            | MotionEvent::Landscape => MotionGroup::Pose,
            MotionEvent::Tap { .. } | MotionEvent::Shake | MotionEvent::Lift
            | MotionEvent::Place => MotionGroup::Action,
        }
    }

    pub fn priority(self) -> (p: u8)
        ensures
            p == event_priority(self),
    {
        match self {
            MotionEvent::Shake => 100,
            MotionEvent::Lift | MotionEvent::Place => 80,
            MotionEvent::TiltEnter(_) | MotionEvent::TiltExit(_) => 60,
            MotionEvent::Portrait | MotionEvent::Landscape => 50,
            MotionEvent::Tap { .. } => 40,
            MotionEvent::Step => 35,
            MotionEvent::Activity => 30,
            MotionEvent::Moving | MotionEvent::Still => 20,
        }
    }
}

fn group_slot(group: MotionGroup) -> (i: usize)
    ensures
        i == group_index(group),
        i < GROUP_COUNT,
{
    match group {
        MotionGroup::State => 0,
        MotionGroup::Pose => 1,
        MotionGroup::Action => 2,
    }
}

/// How many times each semantic has been raised since boot, saturating.
#[derive(Debug, Clone, Copy, PartialEq, Eq, Structural)]
pub struct MotionCounts {
    pub taps: u16,
    pub double_taps: u16,
    pub triple_taps: u16,
    pub still: u16,
    pub moving: u16,
    pub activity: u16,
    pub steps: u16,
    /// Tilt entries summed over all four directions.
    pub tilt_enters: u16,
    /// Tilt exits summed over all four directions.
    pub tilt_exits: u16,
    pub shakes: u16,
    pub lifts: u16,
    pub places: u16,
    pub portraits: u16,
    pub landscapes: u16,
}

pub open spec fn sat_inc16(v: u16) -> u16 {
    if v == u16::MAX { v } else { (v + 1) as u16 }
}

/// The tally after one more `event`: a tap splits by its knock count (one,
/// two, anything else), the four tilt directions share one entry and one
/// exit bucket, every other semantic has its own; each bucket saturates.
pub open spec fn counts_bumped(c: MotionCounts, event: MotionEvent) -> MotionCounts {
    match event {
        MotionEvent::Tap { count } => if count == 1 {
            MotionCounts { taps: sat_inc16(c.taps), ..c }
        } else if count == 2 {
            MotionCounts { double_taps: sat_inc16(c.double_taps), ..c }
        } else {
            MotionCounts { triple_taps: sat_inc16(c.triple_taps), ..c }
        },
        MotionEvent::Still => MotionCounts { still: sat_inc16(c.still), ..c },
        MotionEvent::Moving => MotionCounts { moving: sat_inc16(c.moving), ..c },
        MotionEvent::Activity => MotionCounts { activity: sat_inc16(c.activity), ..c },
        MotionEvent::Step => MotionCounts { steps: sat_inc16(c.steps), ..c },
        MotionEvent::TiltEnter(_) => MotionCounts { tilt_enters: sat_inc16(c.tilt_enters), ..c },
        MotionEvent::TiltExit(_) => MotionCounts { tilt_exits: sat_inc16(c.tilt_exits), ..c },
        MotionEvent::Shake => MotionCounts { shakes: sat_inc16(c.shakes), ..c },
        MotionEvent::Lift => MotionCounts { lifts: sat_inc16(c.lifts), ..c },
        MotionEvent::Place => MotionCounts { places: sat_inc16(c.places), ..c },
        MotionEvent::Portrait => MotionCounts { portraits: sat_inc16(c.portraits), ..c },
        MotionEvent::Landscape => MotionCounts { landscapes: sat_inc16(c.landscapes), ..c },
    }
}

pub open spec fn zero_counts() -> MotionCounts {
    MotionCounts {
        taps: 0,
        double_taps: 0,
        triple_taps: 0,
        still: 0,
        moving: 0,
        activity: 0,
        steps: 0,
        tilt_enters: 0,
        tilt_exits: 0,
        shakes: 0,
        lifts: 0,
        places: 0,
        portraits: 0,
        landscapes: 0,
    }
}

impl MotionCounts {
    /// A zeroed tally.
    pub fn zero() -> (c: MotionCounts)
        ensures
            c == zero_counts(),
    {
        MotionCounts {
            taps: 0,
            double_taps: 0,
            triple_taps: 0,
            still: 0,
            moving: 0,
            activity: 0,
            steps: 0,
            tilt_enters: 0,
            tilt_exits: 0,
            shakes: 0,
            lifts: 0,
            places: 0,
            portraits: 0,
            landscapes: 0,
        }
    }

    /// Files one semantic under its bucket.
    pub fn bump(&mut self, event: MotionEvent)
        ensures
            *final(self) == counts_bumped(*old(self), event),
    {
        match event {
            MotionEvent::Tap { count } => {
                if count == 1 {
                    self.taps = self.taps.saturating_add(1);
                } else if count == 2 {
                    self.double_taps = self.double_taps.saturating_add(1);
                } else {
                    self.triple_taps = self.triple_taps.saturating_add(1);
                }
            },
            MotionEvent::Still => self.still = self.still.saturating_add(1),
            MotionEvent::Moving => self.moving = self.moving.saturating_add(1),
            MotionEvent::Activity => self.activity = self.activity.saturating_add(1),
            MotionEvent::Step => self.steps = self.steps.saturating_add(1),
            MotionEvent::TiltEnter(_) => self.tilt_enters = self.tilt_enters.saturating_add(1),
            MotionEvent::TiltExit(_) => self.tilt_exits = self.tilt_exits.saturating_add(1),
            MotionEvent::Shake => self.shakes = self.shakes.saturating_add(1),
            MotionEvent::Lift => self.lifts = self.lifts.saturating_add(1),
            MotionEvent::Place => self.places = self.places.saturating_add(1),
            MotionEvent::Portrait => self.portraits = self.portraits.saturating_add(1),
            MotionEvent::Landscape => self.landscapes = self.landscapes.saturating_add(1),
        }
    }
}

impl Default for MotionCounts {
    fn default() -> (c: MotionCounts)
        ensures
            c == zero_counts(),
    {
        MotionCounts::zero()
    }
}

pub const GROUP_COUNT: usize = 3;

/// What a motion source can actually report, as a bit set.
#[derive(Debug, Clone, Copy, PartialEq, Eq, Structural)]
pub struct MotionCapabilities(pub u64);

impl MotionCapabilities {
    pub fn empty() -> (c: MotionCapabilities)
        ensures
            c.0 == 0,
    {
        MotionCapabilities(0)
    }

    pub fn telemetry() -> (c: MotionCapabilities)
        ensures
            c.0 == 1,
    {
        MotionCapabilities(1)
    }

    pub fn tap() -> (c: MotionCapabilities)
        ensures
            c.0 == 2,
    {
        MotionCapabilities(2)
    }

    pub fn step() -> (c: MotionCapabilities)
        ensures
            c.0 == 4,
    {
        MotionCapabilities(4)
    }

    pub fn still() -> (c: MotionCapabilities)
        ensures
            c.0 == 8,
    {
        MotionCapabilities(8)
    }

    pub fn moving() -> (c: MotionCapabilities)
        ensures
            c.0 == 16,
    {
        MotionCapabilities(16)
    }

    pub fn activity() -> (c: MotionCapabilities)
        ensures
            c.0 == 32,
    {
        MotionCapabilities(32)
    }

    pub fn tilt() -> (c: MotionCapabilities)
        ensures
            c.0 == 64,
    {
        MotionCapabilities(64)
    }

    pub fn shake() -> (c: MotionCapabilities)
        ensures
            c.0 == 128,
    {
        MotionCapabilities(128)
    }

    pub fn lift_place() -> (c: MotionCapabilities)
        ensures
            c.0 == 256,
    {
        MotionCapabilities(256)
    }

    pub fn posture() -> (c: MotionCapabilities)
        ensures
            c.0 == 512,
    {
        MotionCapabilities(512)
    }

    pub fn union(self, other: Self) -> (r: Self)
        ensures
            r.0 == self.0 | other.0,
    {
        MotionCapabilities(self.0 | other.0)
    }

    pub fn contains(self, other: Self) -> (r: bool)
        ensures
            r == (self.0 & other.0 == other.0),
    {
        self.0 & other.0 == other.0
    }

    /// Raw mask, for logging a build's declaration without a formatter.
    pub fn bits(self) -> (r: u64)
        ensures
            r == self.0,
    {
        self.0
    }
}

impl Default for MotionCapabilities {
    fn default() -> (c: MotionCapabilities)
        ensures
            c.0 == 0,
    {
        MotionCapabilities(0)
    }
}

/// What the core-side classifier derives from any source's data plane: tap,
/// tilt, shake, lift/place and posture.
pub fn recognizer_capabilities() -> (c: MotionCapabilities)
    ensures
        c.0 == RECOGNIZER_CAPABILITY_BITS,
{
    MotionCapabilities(RECOGNIZER_CAPABILITY_BITS)
}

pub const RECOGNIZER_CAPABILITY_BITS: u64 = 962;

/// A union holds both of its parts, and the empty set is its identity.
pub proof fn lemma_union_contains(a: u64, b: u64)
    ensures
        (a | b) & a == a,
        (a | b) & b == b,
        (0u64 | a) == a,
{
    assert((a | b) & a == a) by (bit_vector);
    assert((a | b) & b == b) by (bit_vector);
    assert((0u64 | a) == a) by (bit_vector);
}

/// The recognizer declaration is exactly the union of its five semantics.
pub proof fn lemma_recognizer_capabilities()
    ensures
        RECOGNIZER_CAPABILITY_BITS == (((2u64 | 64u64) | 128u64) | 256u64) | 512u64,
{
    assert((((2u64 | 64u64) | 128u64) | 256u64) | 512u64 == 962u64) by (bit_vector);
}

/// A bounded set of semantics from one poll: it holds the pre-arbitration
/// union of one hardware engine and the core classifiers.
pub const MOTION_EVENT_CAPACITY: usize = 8;

#[derive(Debug, Clone, Copy, PartialEq, Eq)]
pub struct MotionEvents {
    slots: [Option<MotionEvent>; MOTION_EVENT_CAPACITY],
}

/// The semantics a slot sequence holds, in slot order.
pub open spec fn present(slots: Seq<Option<MotionEvent>>) -> Seq<MotionEvent>
    decreases slots.len(),
{
    if slots.len() == 0 {
        Seq::empty()
    } else {
        let rest = present(slots.drop_last());
        match slots.last() {
            Some(e) => rest.push(e),
            None => rest,
        }
    }
}

/// Index of the first free slot, if any.
pub open spec fn first_free(slots: Seq<Option<MotionEvent>>) -> Option<int>
    decreases slots.len(),
{
    if slots.len() == 0 {
        None
    } else {
        match first_free(slots.drop_last()) {
            Some(i) => Some(i),
            None => if slots.last() is None {
                Some(slots.len() - 1)
            } else {
                None
            },
        }
    }
}

/// The slots after pushing `event`, with whether it found room.
pub open spec fn slots_pushed(slots: Seq<Option<MotionEvent>>, event: MotionEvent) -> (Seq<
    Option<MotionEvent>,
>, bool) {
    match first_free(slots) {
        Some(i) => (slots.update(i, Some(event)), true),
        None => (slots, false),
    }
}

/// The slots after pushing every semantic of `events` in order, with how
/// many were refused for lack of room.
pub open spec fn slots_extended(slots: Seq<Option<MotionEvent>>, events: Seq<MotionEvent>) -> (Seq<
    Option<MotionEvent>,
>, nat)
    decreases events.len(),
{
    if events.len() == 0 {
        (slots, 0)
    } else {
        let (before, dropped) = slots_extended(slots, events.drop_last());
        let (after, ok) = slots_pushed(before, events.last());
        (after, if ok { dropped } else { dropped + 1 })
    }
}

/// The candidate of `group` that survives in `events`: the first one of the
/// highest priority.
pub open spec fn best_of_group(events: Seq<MotionEvent>, group: MotionGroup) -> Option<MotionEvent>
    decreases events.len(),
{
    if events.len() == 0 {
        None
    } else {
        let kept = best_of_group(events.drop_last(), group);
        let e = events.last();
        if event_group(e) == group && (kept is None || event_priority(e) > event_priority(
            kept.unwrap(),
        )) {
            Some(e)
        } else {
            kept
        }
    }
}

/// The slots after keeping only each family's best candidate.
pub open spec fn slots_best_per_group(slots: Seq<Option<MotionEvent>>) -> Seq<Option<MotionEvent>> {
    let events = present(slots);
    Seq::new(
        slots.len(),
        |i: int|
            match slots[i] {
                Some(e) => if best_of_group(events, event_group(e)) == Some(e) {
                    Some(e)
                } else {
                    None
                },
                None => None,
            },
    )
}

pub open spec fn absent_slots(n: nat) -> Seq<Option<MotionEvent>> {
    Seq::new(n, |i: int| None)
}

proof fn lemma_present_take_step(slots: Seq<Option<MotionEvent>>, i: int)
    requires
        0 <= i < slots.len(),
    ensures
        present(slots.take(i + 1)) == match slots[i] {
            Some(e) => present(slots.take(i)).push(e),
            None => present(slots.take(i)),
        },
{
    assert(slots.take(i + 1).drop_last() =~= slots.take(i));
}

proof fn lemma_first_free_take_step(slots: Seq<Option<MotionEvent>>, i: int)
    requires
        0 <= i < slots.len(),
        first_free(slots.take(i)) is None,
    ensures
        first_free(slots.take(i + 1)) == if slots[i] is None {
            Some(i)
        } else {
            None::<int>
        },
{
    assert(slots.take(i + 1).drop_last() =~= slots.take(i));
}

proof fn lemma_first_free_prefix(slots: Seq<Option<MotionEvent>>, i: int)
    requires
        0 <= i <= slots.len(),
        first_free(slots.take(i)) matches Some(k),
    ensures
        first_free(slots) == first_free(slots.take(i)),
    decreases slots.len() - i,
{
    if i < slots.len() {
        assert(slots.take(i + 1).drop_last() =~= slots.take(i));
        lemma_first_free_prefix(slots, i + 1);
    } else {
        assert(slots.take(i) =~= slots);
    }
}

proof fn lemma_first_free_in_range(slots: Seq<Option<MotionEvent>>)
    ensures
        first_free(slots) matches Some(k) ==> 0 <= k < slots.len() && slots[k] is None,
    decreases slots.len(),
{
    if slots.len() > 0 {
        lemma_first_free_in_range(slots.drop_last());
    }
}

impl MotionEvents {
    pub closed spec fn slots_view(&self) -> Seq<Option<MotionEvent>> {
        self.slots@
    }

    /// The semantics this set holds, in arrival order.
    pub open spec fn events(&self) -> Seq<MotionEvent> {
        present(self.slots_view())
    }

    pub fn new() -> (s: Self)
        ensures
            s.slots_view() == absent_slots(MOTION_EVENT_CAPACITY as nat),
            s.events() == Seq::<MotionEvent>::empty(),
    {
        let s = MotionEvents { slots: [None; MOTION_EVENT_CAPACITY] };
        proof {
            assert(s.slots@ =~= absent_slots(MOTION_EVENT_CAPACITY as nat));
            lemma_present_absent(MOTION_EVENT_CAPACITY as nat);
        }
        s
    }

    /// Adds `event` in the first free slot. Returns false when the set is
    /// full, so a caller can tell a dropped semantic from an absent one.
    pub fn push(&mut self, event: MotionEvent) -> (added: bool)
        ensures
            (final(self).slots_view(), added) == slots_pushed(old(self).slots_view(), event),
    {
        let mut i: usize = 0;
        while i < MOTION_EVENT_CAPACITY
            invariant
                0 <= i <= MOTION_EVENT_CAPACITY,
                self.slots@ == old(self).slots@,
                first_free(self.slots@.take(i as int)) is None,
            decreases MOTION_EVENT_CAPACITY - i,
        {
            proof {
                lemma_first_free_take_step(self.slots@, i as int);
            }
            if self.slots[i].is_none() {
                proof {
                    lemma_first_free_prefix(self.slots@, i as int + 1);
                }
                self.slots[i] = Some(event);
                return true;
            }
            i += 1;
        }
        assert(self.slots@.take(MOTION_EVENT_CAPACITY as int) =~= self.slots@);
        false
    }

    /// Appends another set, reporting how many semantics the capacity refused.
    pub fn extend_from(&mut self, other: MotionEvents) -> (dropped: usize)
        ensures
            (final(self).slots_view(), dropped as nat) == slots_extended(
                old(self).slots_view(),
                other.events(),
            ),
    {
        let mut dropped: usize = 0;
        let mut i: usize = 0;
        while i < MOTION_EVENT_CAPACITY
            invariant
                0 <= i <= MOTION_EVENT_CAPACITY,
                dropped <= i,
                (self.slots@, dropped as nat) == slots_extended(
                    old(self).slots@,
                    present(other.slots@.take(i as int)),
                ),
            decreases MOTION_EVENT_CAPACITY - i,
        {
            proof {
                lemma_present_take_step(other.slots@, i as int);
            }
            match other.slots[i] {
                Some(event) => {
                    let ghost events = present(other.slots@.take(i as int)).push(event);
                    assert(events.drop_last() =~= present(other.slots@.take(i as int)));
                    if !self.push(event) {
                        dropped += 1;
                    }
                },
                None => {},
            }
            i += 1;
        }
        assert(other.slots@.take(MOTION_EVENT_CAPACITY as int) =~= other.slots@);
        dropped
    }

    /// The semantics held, in arrival order.
    pub fn iter(&self) -> (v: Vec<MotionEvent>)
        ensures
            v@ == self.events(),
    {
        let mut v: Vec<MotionEvent> = Vec::new();
        let mut i: usize = 0;
        while i < MOTION_EVENT_CAPACITY
            invariant
                0 <= i <= MOTION_EVENT_CAPACITY,
                v@ == present(self.slots@.take(i as int)),
            decreases MOTION_EVENT_CAPACITY - i,
        {
            proof {
                lemma_present_take_step(self.slots@, i as int);
            }
            match self.slots[i] {
                Some(event) => v.push(event),
                None => {},
            }
            i += 1;
        }
        assert(self.slots@.take(MOTION_EVENT_CAPACITY as int) =~= self.slots@);
        v
    }

    pub fn len(&self) -> (n: usize)
        ensures
            n == self.events().len(),
    {
        let v = self.iter();
        v.len()
    }

    pub fn is_empty(&self) -> (r: bool)
        ensures
            r == (self.events().len() == 0),
    {
        self.len() == 0
    }

    /// The semantic in the highest occupied slot.
    pub fn latest(&self) -> (r: Option<MotionEvent>)
        ensures
            r == (if self.events().len() == 0 {
                None
            } else {
                Some(self.events().last())
            }),
    {
        let v = self.iter();
        if v.len() == 0 {
            None
        } else {
            Some(v[v.len() - 1])
        }
    }

    /// Drops everything but the highest-priority member of each family, so
    /// one physical act reaches the business layer as a single description.
    pub fn keep_best_per_group(&mut self)
        ensures
            final(self).slots_view() == slots_best_per_group(old(self).slots_view()),
    {
        let events = self.iter();
        let mut best: [Option<MotionEvent>; GROUP_COUNT] = [None; GROUP_COUNT];
        let mut i: usize = 0;
        while i < events.len()
            invariant
                0 <= i <= events.len(),
                events@ == present(self.slots@),
                self.slots@ == old(self).slots@,
                forall|g: MotionGroup|
                    #![trigger best_of_group(events@.take(i as int), g)]
                    best@[group_index(g)] == best_of_group(events@.take(i as int), g),
            decreases events.len() - i,
        {
            let event = events[i];
            let slot = group_slot(event.group());
            let replace = match best[slot] {
                None => true,
                Some(kept) => event.priority() > kept.priority(),
            };
            if replace {
                best[slot] = Some(event);
            }
            proof {
                assert(events@.take(i + 1).drop_last() =~= events@.take(i as int));
                assert forall|g: MotionGroup|
                    #![trigger best_of_group(events@.take(i + 1), g)]
                    best@[group_index(g)] == best_of_group(events@.take(i + 1), g) by {
                    assert(best_of_group(events@.take(i as int), g) == old_best(g, events@, i as int));
                }
            }
            i += 1;
        }
        assert(events@.take(events.len() as int) =~= events@);
        let ghost before = self.slots@;
        let mut j: usize = 0;
        while j < MOTION_EVENT_CAPACITY
            invariant
                0 <= j <= MOTION_EVENT_CAPACITY,
                before == old(self).slots@,
                forall|g: MotionGroup|
                    #![trigger best_of_group(present(before), g)]
                    best@[group_index(g)] == best_of_group(present(before), g),
                forall|k: int|
                    j <= k < MOTION_EVENT_CAPACITY ==> self.slots@[k] == before[k],
                forall|k: int|
                    0 <= k < j ==> self.slots@[k] == slots_best_per_group(before)[k],
            decreases MOTION_EVENT_CAPACITY - j,
        {
            match self.slots[j] {
                Some(event) => {
                    let slot = group_slot(event.group());
                    let keep = match best[slot] {
                        Some(b) => b == event,
                        None => false,
                    };
                    if !keep {
                        self.slots[j] = None;
                    }
                },
                None => {},
            }
            j += 1;
        }
        assert(self.slots@ =~= slots_best_per_group(before));
    }
}

spec fn old_best(g: MotionGroup, events: Seq<MotionEvent>, i: int) -> Option<MotionEvent> {
    best_of_group(events.take(i), g)
}

proof fn lemma_present_absent(n: nat)
    ensures
        present(absent_slots(n)) == Seq::<MotionEvent>::empty(),
    decreases n,
{
    if n > 0 {
        assert(absent_slots(n).drop_last() =~= absent_slots((n - 1) as nat));
        lemma_present_absent((n - 1) as nat);
    }
}

/// `n` slots holding `events` in order from the first, the rest free.
pub open spec fn compact_slots(events: Seq<MotionEvent>, n: nat) -> Seq<Option<MotionEvent>> {
    Seq::new(n, |i: int| if i < events.len() { Some(events[i]) } else { None })
}

proof fn lemma_compact_present(events: Seq<MotionEvent>, n: nat)
    requires
        events.len() <= n,
    ensures
        present(compact_slots(events, n)) == events,
        first_free(compact_slots(events, n)) == if events.len() < n {
            Some(events.len() as int)
        } else {
            None::<int>
        },
    decreases n,
{
    if n > 0 {
        if events.len() == n {
            assert(compact_slots(events, n).drop_last() =~= compact_slots(events.drop_last(), (n - 1) as nat));
            lemma_compact_present(events.drop_last(), (n - 1) as nat);
            assert(events.drop_last().push(events.last()) =~= events);
        } else {
            assert(compact_slots(events, n).drop_last() =~= compact_slots(events, (n - 1) as nat));
            lemma_compact_present(events, (n - 1) as nat);
        }
    }
}

/// Pushing into a fresh set in order keeps every semantic while there is
/// room.
pub proof fn lemma_extended_fresh(events: Seq<MotionEvent>)
    requires
        events.len() <= MOTION_EVENT_CAPACITY,
    ensures
        slots_extended(absent_slots(MOTION_EVENT_CAPACITY as nat), events).0 == compact_slots(
            events,
            MOTION_EVENT_CAPACITY as nat,
        ),
        present(compact_slots(events, MOTION_EVENT_CAPACITY as nat)) == events,
    decreases events.len(),
{
    lemma_compact_present(events, MOTION_EVENT_CAPACITY as nat);
    if events.len() == 0 {
        assert(absent_slots(MOTION_EVENT_CAPACITY as nat) =~= compact_slots(events, MOTION_EVENT_CAPACITY as nat));
    } else {
        let init = events.drop_last();
        lemma_extended_fresh(init);
        lemma_compact_present(init, MOTION_EVENT_CAPACITY as nat);
        assert(compact_slots(init, MOTION_EVENT_CAPACITY as nat).update(init.len() as int, Some(events.last()))
            =~= compact_slots(events, MOTION_EVENT_CAPACITY as nat));
    }
}

/// Extending by `a` and then by `b` is extending by `a + b`.
pub proof fn lemma_extended_concat(slots: Seq<Option<MotionEvent>>, a: Seq<MotionEvent>, b: Seq<MotionEvent>)
    ensures
        slots_extended(slots_extended(slots, a).0, b).0 == slots_extended(slots, a + b).0,
    decreases b.len(),
{
    if b.len() == 0 {
        assert(a + b =~= a);
    } else {
        lemma_extended_concat(slots, a, b.drop_last());
        assert((a + b).drop_last() =~= a + b.drop_last());
        assert((a + b).last() == b.last());
    }
}

impl Default for MotionEvents {
    fn default() -> (s: MotionEvents)
        ensures
            s.events() == Seq::<MotionEvent>::empty(),
    {
        MotionEvents::new()
    }
}

/// One poll's worth of motion: the data plane plus the semantics this poll
/// raised.
#[derive(Debug, Clone, Copy, PartialEq, Eq)]
pub struct MotionBatch {
    pub sample: MotionSample,
    pub events: MotionEvents,
}

impl MotionBatch {
    pub fn new(sample: MotionSample) -> (b: Self)
        ensures
            b.sample == sample,
            b.events.events() == Seq::<MotionEvent>::empty(),
    {
        MotionBatch { sample, events: MotionEvents::new() }
    }
}

/// Suppresses a repeated semantic from the same family within this window.
pub const MOTION_COOLDOWN_MS: u64 = 300;

#[derive(Debug, Clone, Copy, PartialEq, Eq)]
pub struct MotionArbiter {
    last_fired_ms: [Option<u64>; GROUP_COUNT],
}

/// Whether a family last fired at `last` has cooled down by `now`.
pub open spec fn cooled(last: Option<u64>, now: u64) -> bool {
    match last {
        None => true,
        Some(at) => (if now >= at { now - at } else { 0 }) >= MOTION_COOLDOWN_MS,
    }
}

/// The cooldown pass over slots `0..i`: every surviving semantic stamps its
/// family's clock, so a later candidate of the same family in the same poll
/// is inside the window.
pub open spec fn cooldown_pass(last: Seq<Option<u64>>, slots: Seq<Option<MotionEvent>>, now: u64, i: int) -> (Seq<Option<u64>>, Seq<Option<MotionEvent>>)
    decreases i,
{
    if i <= 0 {
        (last, slots)
    } else {
        let (l, s) = cooldown_pass(last, slots, now, i - 1);
        match s[i - 1] {
            Some(e) => {
                let g = group_index(event_group(e));
                if cooled(l[g], now) {
                    (l.update(g, Some(now)), s)
                } else {
                    (l, s.update(i - 1, None))
                }
            },
            None => (l, s),
        }
    }
}

impl MotionArbiter {
    pub closed spec fn last_fired(&self) -> Seq<Option<u64>> {
        self.last_fired_ms@
    }

    /// The record holds one entry per family.
    pub proof fn lemma_record_per_family(&self)
        ensures
            self.last_fired().len() == GROUP_COUNT,
    {
    }

    pub fn new() -> (a: Self)
        ensures
            a.last_fired() == seq![None::<u64>, None, None],
    {
        let a = MotionArbiter { last_fired_ms: [None; GROUP_COUNT] };
        assert(a.last_fired_ms@ =~= seq![None::<u64>, None, None]);
        a
    }

    /// Reduces a poll's candidates to at most one semantic per family, then
    /// drops any family still inside its cooldown.
    pub fn resolve(&mut self, now_ms: u64, events: &mut MotionEvents)
        ensures
            old(self).last_fired().len() == GROUP_COUNT,
            final(self).last_fired().len() == GROUP_COUNT,
            (final(self).last_fired(), final(events).slots_view()) == cooldown_pass(
                old(self).last_fired(),
                slots_best_per_group(old(events).slots_view()),
                now_ms,
                MOTION_EVENT_CAPACITY as int,
            ),
    {
        events.keep_best_per_group();
        let ghost start = events.slots@;
        let mut i: usize = 0;
        while i < MOTION_EVENT_CAPACITY
            invariant
                0 <= i <= MOTION_EVENT_CAPACITY,
                start == slots_best_per_group(old(events).slots_view()),
                events.slots@.len() == MOTION_EVENT_CAPACITY,
                (self.last_fired_ms@, events.slots@) == cooldown_pass(
                    old(self).last_fired_ms@,
                    start,
                    now_ms,
                    i as int,
                ),
                forall|k: int| i <= k < MOTION_EVENT_CAPACITY ==> events.slots@[k] == start[k],
            decreases MOTION_EVENT_CAPACITY - i,
        {
            proof {
                lemma_cooldown_pass_len(old(self).last_fired_ms@, start, now_ms, i as int);
            }
            match events.slots[i] {
                Some(event) => {
                    let g = group_slot(event.group());
                    let is_cooled = match self.last_fired_ms[g] {
                        None => true,
                        Some(last) => now_ms.saturating_sub(last) >= MOTION_COOLDOWN_MS,
                    };
                    if is_cooled {
                        self.last_fired_ms[g] = Some(now_ms);
                    } else {
                        events.slots[i] = None;
                    }
                },
                None => {},
            }
            i += 1;
        }
    }
}

proof fn lemma_cooldown_pass_len(last: Seq<Option<u64>>, slots: Seq<Option<MotionEvent>>, now: u64, i: int)
    requires
        last.len() == GROUP_COUNT,
        i <= slots.len(),
    ensures
        cooldown_pass(last, slots, now, i).0.len() == GROUP_COUNT,
        cooldown_pass(last, slots, now, i).1.len() == slots.len(),
        forall|k: int|
            i <= k < slots.len() ==> #[trigger] cooldown_pass(last, slots, now, i).1[k] == slots[k],
    decreases i,
{
    if i > 0 {
        lemma_cooldown_pass_len(last, slots, now, i - 1);
    }
}

/// Whether some slot below `i` holds a semantic of the family at `g`.
pub open spec fn kept_in(s: Seq<Option<MotionEvent>>, i: int, g: int) -> bool {
    exists|k: int| 0 <= k < i && #[trigger] s[k] is Some && group_index(event_group(s[k].unwrap())) == g
}

proof fn lemma_cooldown_pass_shape(last: Seq<Option<u64>>, b: Seq<Option<MotionEvent>>, now: u64, i: int)
    requires
        last.len() == GROUP_COUNT,
        0 <= i <= b.len(),
    ensures
        ({
            let (l, s) = cooldown_pass(last, b, now, i);
            &&& forall|k: int| 0 <= k < i ==> (#[trigger] s[k] is None || s[k] == b[k])
            &&& forall|k: int|
                0 <= k < i && (#[trigger] s[k] is Some) ==> cooled(last[group_index(event_group(s[k].unwrap()))], now)
            &&& forall|k1: int, k2: int|
                0 <= k1 < k2 < i && (#[trigger] s[k1] is Some) && (#[trigger] s[k2] is Some) ==> group_index(
                    event_group(s[k1].unwrap()),
                ) != group_index(event_group(s[k2].unwrap()))
            &&& forall|g: int| 0 <= g < 3 ==> #[trigger] l[g] == if kept_in(s, i, g) { Some(now) } else { last[g] }
            &&& forall|k: int|
                0 <= k < i && b[k] is Some && (#[trigger] s[k] is None) ==> (!cooled(
                    last[group_index(event_group(b[k].unwrap()))],
                    now,
                ) || kept_in(s, k, group_index(event_group(b[k].unwrap()))))
        }),
    decreases i,
{
    lemma_cooldown_pass_len(last, b, now, i);
    if i > 0 {
        lemma_cooldown_pass_shape(last, b, now, i - 1);
        lemma_cooldown_pass_len(last, b, now, i - 1);
        let (l0, s0) = cooldown_pass(last, b, now, i - 1);
        let (l, s) = cooldown_pass(last, b, now, i);
        assert(s0[i - 1] == b[i - 1]);
        match s0[i - 1] {
            Some(e) => {
                let g = group_index(event_group(e));
                if cooled(l0[g], now) {
                    assert(!kept_in(s0, i - 1, g)) by {
                        if kept_in(s0, i - 1, g) {
                            assert(l0[g] == Some(now));
                        }
                    }
                    assert(l0[g] == last[g]);
                    assert(s == s0);
                    assert forall|h: int| 0 <= h < 3 implies #[trigger] l[h] == if kept_in(s, i, h) {
                        Some(now)
                    } else {
                        last[h]
                    } by {
                        if h == g {
                            assert(s[i - 1] is Some && group_index(event_group(s[i - 1].unwrap())) == g);
                        } else {
                            if kept_in(s, i, h) {
                                let k = choose|k: int|
                                    0 <= k < i && #[trigger] s[k] is Some && group_index(event_group(s[k].unwrap())) == h;
                                assert(k < i - 1);
                                assert(kept_in(s0, i - 1, h));
                            } else {
                                assert(!kept_in(s0, i - 1, h)) by {
                                    if kept_in(s0, i - 1, h) {
                                        let k = choose|k: int|
                                            0 <= k < i - 1 && #[trigger] s0[k] is Some && group_index(
                                                event_group(s0[k].unwrap()),
                                            ) == h;
                                        assert(s[k] is Some);
                                    }
                                }
                            }
                        }
                    }
                    assert forall|k1: int, k2: int|
                        0 <= k1 < k2 < i && (#[trigger] s[k1] is Some) && (#[trigger] s[k2] is Some) implies group_index(
                        event_group(s[k1].unwrap()),
                    ) != group_index(event_group(s[k2].unwrap())) by {
                        if k2 == i - 1 {
                            if group_index(event_group(s[k1].unwrap())) == g {
                                assert(kept_in(s0, i - 1, g));
                            }
                        }
                    }
                    assert forall|k: int|
                        0 <= k < i && b[k] is Some && (#[trigger] s[k] is None) implies (!cooled(
                        last[group_index(event_group(b[k].unwrap()))],
                        now,
                    ) || kept_in(s, k, group_index(event_group(b[k].unwrap())))) by {
                        if kept_in(s0, k, group_index(event_group(b[k].unwrap()))) {
                            let h = group_index(event_group(b[k].unwrap()));
                            let j = choose|j: int|
                                0 <= j < k && #[trigger] s0[j] is Some && group_index(event_group(s0[j].unwrap())) == h;
                            assert(s[j] is Some);
                        }
                    }
                } else {
                    assert(s == s0.update(i - 1, None));
                    assert(l == l0);
                    assert forall|h: int| 0 <= h < 3 implies #[trigger] l[h] == if kept_in(s, i, h) {
                        Some(now)
                    } else {
                        last[h]
                    } by {
                        if kept_in(s, i, h) {
                            let k = choose|k: int|
                                0 <= k < i && #[trigger] s[k] is Some && group_index(event_group(s[k].unwrap())) == h;
                            assert(k < i - 1);
                            assert(s0[k] == s[k]);
                            assert(kept_in(s0, i - 1, h));
                        } else {
                            assert(!kept_in(s0, i - 1, h)) by {
                                if kept_in(s0, i - 1, h) {
                                    let k = choose|k: int|
                                        0 <= k < i - 1 && #[trigger] s0[k] is Some && group_index(
                                            event_group(s0[k].unwrap()),
                                        ) == h;
                                    assert(s[k] == s0[k]);
                                }
                            }
                        }
                    }
                    assert forall|k: int|
                        0 <= k < i && b[k] is Some && (#[trigger] s[k] is None) implies (!cooled(
                        last[group_index(event_group(b[k].unwrap()))],
                        now,
                    ) || kept_in(s, k, group_index(event_group(b[k].unwrap())))) by {
                        let h = group_index(event_group(b[k].unwrap()));
                        if k == i - 1 {
                            if kept_in(s0, i - 1, g) {
                                let j = choose|j: int|
                                    0 <= j < i - 1 && #[trigger] s0[j] is Some && group_index(event_group(s0[j].unwrap())) == g;
                                assert(s[j] == s0[j]);
                            }
                        } else {
                            assert(s[k] == s0[k]);
                            if kept_in(s0, k, h) {
                                let j = choose|j: int|
                                    0 <= j < k && #[trigger] s0[j] is Some && group_index(event_group(s0[j].unwrap())) == h;
                                assert(s[j] == s0[j]);
                            }
                        }
                    }
                    assert forall|k: int|
                        0 <= k < i && (#[trigger] s[k] is Some) implies cooled(last[group_index(event_group(s[k].unwrap()))], now) by {
                        assert(s[k] == s0[k]);
                    }
                }
            },
            None => {
                assert(s == s0 && l == l0);
                assert forall|h: int| 0 <= h < 3 implies #[trigger] l[h] == if kept_in(s, i, h) {
                    Some(now)
                } else {
                    last[h]
                } by {
                    if kept_in(s, i, h) {
                        let k = choose|k: int|
                            0 <= k < i && #[trigger] s[k] is Some && group_index(event_group(s[k].unwrap())) == h;
                        assert(kept_in(s0, i - 1, h));
                    }
                }
                assert forall|k: int|
                    0 <= k < i && b[k] is Some && (#[trigger] s[k] is None) implies (!cooled(
                    last[group_index(event_group(b[k].unwrap()))],
                    now,
                ) || kept_in(s, k, group_index(event_group(b[k].unwrap())))) by {
                }
            },
        }
    }
}

/// The arbiter's outcome on one poll: what survives is a subset of the
/// candidates, each in its own slot; each survivor is the first candidate
/// of highest priority in its family, and its family had cooled down; no
/// family survives twice; a best candidate is dropped only when its family
/// had not cooled down or an earlier slot already fired for that family;
/// and exactly the families that fired record `now` as their last firing.
pub proof fn lemma_resolve_outcome(last: Seq<Option<u64>>, slots: Seq<Option<MotionEvent>>, now: u64)
    requires
        last.len() == GROUP_COUNT,
    ensures
        ({
            let (l, s) = cooldown_pass(last, slots_best_per_group(slots), now, slots.len() as int);
            &&& s.len() == slots.len()
            &&& forall|k: int|
                0 <= k < s.len() && (#[trigger] s[k] is Some) ==> s[k] == slots[k] && best_of_group(
                    present(slots),
                    event_group(s[k].unwrap()),
                ) == s[k] && cooled(last[group_index(event_group(s[k].unwrap()))], now)
            &&& forall|k1: int, k2: int|
                0 <= k1 < k2 < s.len() && (#[trigger] s[k1] is Some) && (#[trigger] s[k2] is Some) ==> event_group(
                    s[k1].unwrap(),
                ) != event_group(s[k2].unwrap())
            &&& forall|k: int|
                0 <= k < s.len() && (#[trigger] slots[k] is Some) && best_of_group(
                    present(slots),
                    event_group(slots[k].unwrap()),
                ) == slots[k] && s[k] is None ==> (!cooled(last[group_index(event_group(slots[k].unwrap()))], now)
                    || kept_in(s, k, group_index(event_group(slots[k].unwrap()))))
            &&& forall|g: int| 0 <= g < 3 ==> #[trigger] l[g] == if kept_in(s, s.len() as int, g) { Some(now) } else { last[g] }
        }),
{
    let b = slots_best_per_group(slots);
    let n = slots.len() as int;
    lemma_cooldown_pass_shape(last, b, now, n);
    lemma_cooldown_pass_len(last, b, now, n);
    let (l, s) = cooldown_pass(last, b, now, n);
    assert forall|k1: int, k2: int|
        0 <= k1 < k2 < s.len() && (#[trigger] s[k1] is Some) && (#[trigger] s[k2] is Some) implies event_group(
        s[k1].unwrap(),
    ) != event_group(s[k2].unwrap()) by {
        assert(group_index(event_group(s[k1].unwrap())) != group_index(event_group(s[k2].unwrap())));
    }
    assert forall|k: int|
        0 <= k < s.len() && (#[trigger] slots[k] is Some) && best_of_group(
            present(slots),
            event_group(slots[k].unwrap()),
        ) == slots[k] && s[k] is None implies (!cooled(last[group_index(event_group(slots[k].unwrap()))], now)
        || kept_in(s, k, group_index(event_group(slots[k].unwrap())))) by {
        assert(b[k] == slots[k]);
    }
}

impl Default for MotionArbiter {
    fn default() -> (a: MotionArbiter)
        ensures
            a.last_fired() == seq![None::<u64>, None, None],
    {
        MotionArbiter::new()
    }
}

} // verus!
