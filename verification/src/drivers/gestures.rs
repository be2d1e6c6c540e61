//! The touch gesture classifier: folds id-stable touch samples into `Press`
//! down-edges, deferred `Tap`s, in-window `DoubleTap`s, `Swipe`s and lone
//! `LongPress`es, rejects self-cap phantom echoes, and drains everything it
//! resolves through a single-event channel backed by a two-slot FIFO.
use vstd::prelude::*;

use crate::drivers::input::{
    close_pair, dominant_axis, dominant_direction, elapsed, pair_close, sq_dist, sq_distance,
    travel, travel_px, EventAggregator, GestureEvent, InputEvent, TouchEvent, TouchPoint,
    TouchStatus, DOUBLE_CLICK_WINDOW_MS, LONG_PRESS_MS, MAX_TOUCH_POINTS, PHANTOM_RADIUS_PX,
    PHANTOM_WINDOW_MS, SWIPE_MIN_DISTANCE_PX,
};

verus! {

/// Per-finger gesture state: the owned tracker `id`, the armed down edge,
/// and the farthest `(distance_px, x, y)` this press was ever observed from
/// its origin (the slide measure, since a release point is a stale coarse
/// snapshot).
#[derive(Debug, Clone, Copy, PartialEq, Eq)]
pub struct FingerState {
    pub id: Option<u8>,
    pub pressed: bool,
    /// When the current contact went down, so a lift can measure its hold.
    pub down_at_ms: Option<u64>,
    /// Down-edge position, the anchor of the slide measure.
    pub down_x: u16,
    pub down_y: u16,
    pub farthest: Option<(u16, u16, u16)>,
}

/// A short-lift tap parked until its double-tap window closes, carrying the
/// finger that parked it.
#[derive(Debug, Clone, Copy, PartialEq, Eq)]
pub struct PendingTap {
    pub owner_id: u8,
    pub first_at_ms: u64,
    pub x: u16,
    pub y: u16,
    pub held_ms: u16,
}

pub open spec fn free_finger() -> FingerState {
    FingerState { id: None, pressed: false, down_at_ms: None, down_x: 0, down_y: 0, farthest: None }
}

impl FingerState {
    /// A slot that tracks no finger.
    fn free() -> (f: Self)
        ensures
            f == free_finger(),
    {
        FingerState { id: None, pressed: false, down_at_ms: None, down_x: 0, down_y: 0, farthest: None }
    }
}

/// The classifier's whole state, as values.
#[verifier::ext_equal]
pub struct GestureModel {
    pub fingers: Seq<FingerState>,
    pub chamber: Option<PendingTap>,
    pub ghosted: bool,
    pub queued: (Option<InputEvent>, Option<InputEvent>),
}

// ---------------------------------------------------------------------------
// The two-slot FIFO and the single-event channel.

/// Append an event, dropping the oldest once both slots are full.
pub open spec fn queue_push(q: (Option<InputEvent>, Option<InputEvent>), e: InputEvent) -> (
    Option<InputEvent>,
    Option<InputEvent>,
) {
    if q.0 is None {
        (Some(e), q.1)
    } else if q.1 is None {
        (q.0, Some(e))
    } else {
        (q.1, Some(e))
    }
}

/// Every event of `s` appended in order.
pub open spec fn queue_all(q: (Option<InputEvent>, Option<InputEvent>), s: Seq<InputEvent>) -> (
    Option<InputEvent>,
    Option<InputEvent>,
)
    decreases s.len(),
{
    if s.len() == 0 {
        q
    } else {
        queue_push(queue_all(q, s.drop_last()), s.last())
    }
}

/// The events present in a batch of slots, in slot order.
pub open spec fn flattened(s: Seq<Option<InputEvent>>) -> Seq<InputEvent>
    decreases s.len(),
{
    if s.len() == 0 {
        Seq::empty()
    } else {
        let rest = flattened(s.drop_last());
        match s.last() {
            Some(e) => rest.push(e),
            None => rest,
        }
    }
}

/// One drain of the channel: a buffered event emits first and the fresh
/// batch queues behind it (the fallback too, when the batch is empty);
/// otherwise the batch's first event emits and the rest queue; an empty
/// batch lets the fallback through.
pub open spec fn forwarded(
    q: (Option<InputEvent>, Option<InputEvent>),
    fresh: Seq<Option<InputEvent>>,
    fallback: Option<InputEvent>,
) -> ((Option<InputEvent>, Option<InputEvent>), Option<InputEvent>) {
    let q1 = (q.1, None::<InputEvent>);
    let events = flattened(fresh);
    match q.0 {
        Some(older) => {
            let q2 = queue_all(q1, events);
            let q3 = if fallback is Some && events.len() == 0 {
                queue_push(q2, fallback.unwrap())
            } else {
                q2
            };
            (q3, Some(older))
        },
        None => {
            if events.len() > 0 {
                (queue_all(q1, events.drop_first()), Some(events[0]))
            } else {
                (q1, fallback)
            }
        },
    }
}

// ---------------------------------------------------------------------------
// Finger slots.

/// First slot at or after `i` whose owner is `id`.
pub open spec fn scan_owner(fingers: Seq<FingerState>, id: Option<u8>, i: int) -> Option<int>
    decreases fingers.len() - i,
{
    if i < 0 || i >= fingers.len() {
        None
    } else if fingers[i].id == id {
        Some(i)
    } else {
        scan_owner(fingers, id, i + 1)
    }
}

pub open spec fn slot_of(fingers: Seq<FingerState>, id: u8) -> Option<int> {
    scan_owner(fingers, Some(id), 0)
}

pub open spec fn free_slot(fingers: Seq<FingerState>) -> Option<int> {
    scan_owner(fingers, None, 0)
}

/// A down finger whose down edge lies close enough and recent enough for a
/// fresh contact at `(x, y)` to be its self-cap echo.
pub open spec fn echoes(f: FingerState, x: u16, y: u16, now: u64) -> bool {
    &&& f.pressed
    &&& f.down_at_ms is Some
    &&& elapsed(now, f.down_at_ms.unwrap()) <= PHANTOM_WINDOW_MS
    &&& sq_distance(f.down_x, f.down_y, x, y) <= PHANTOM_RADIUS_PX * PHANTOM_RADIUS_PX
}

pub open spec fn is_phantom(fingers: Seq<FingerState>, x: u16, y: u16, now: u64) -> bool {
    exists|i: int| 0 <= i < fingers.len() && #[trigger] echoes(fingers[i], x, y, now)
}

pub open spec fn any_pressed(fingers: Seq<FingerState>) -> bool {
    exists|i: int| 0 <= i < fingers.len() && #[trigger] fingers[i].pressed
}

/// One more observation of the press at `(x, y)`: the farthest point grows
/// when this one lies strictly farther from the origin.
pub open spec fn extend_farthest(f: FingerState, x: u16, y: u16) -> FingerState {
    let far = travel(f.down_x, f.down_y, x, y);
    if f.farthest is None || far > f.farthest.unwrap().0 {
        FingerState { farthest: Some((far, x, y)), ..f }
    } else {
        f
    }
}

/// A contact seen by its finger: an unpressed finger arms (down edge at the
/// point, hold clock at `now`), then the observation extends the slide.
pub open spec fn touch_finger(f: FingerState, p: TouchPoint, now: u64) -> FingerState {
    let armed = if !f.pressed {
        FingerState {
            pressed: true,
            down_at_ms: Some(now),
            down_x: p.x,
            down_y: p.y,
            farthest: Some((0u16, p.x, p.y)),
            ..f
        }
    } else {
        f
    };
    extend_farthest(armed, p.x, p.y)
}

/// A `Down`/`Contact` point: its own finger, else (not a phantom) a free
/// slot claimed for it; the rise into a held state emits `Press`. The flag
/// reports a rejected phantom.
pub open spec fn contact_outcome(fingers: Seq<FingerState>, p: TouchPoint, now: u64) -> (
    Seq<FingerState>,
    Option<InputEvent>,
    bool,
) {
    match slot_of(fingers, p.id) {
        Some(s) => touch_slot(fingers, s, p, now),
        None => {
            if is_phantom(fingers, p.x, p.y, now) {
                (fingers, None, true)
            } else {
                match free_slot(fingers) {
                    Some(s) => touch_slot(fingers.update(s, FingerState { id: Some(p.id), ..fingers[s] }), s, p, now),
                    None => (fingers, None, false),
                }
            }
        },
    }
}

pub open spec fn touch_slot(fingers: Seq<FingerState>, s: int, p: TouchPoint, now: u64) -> (
    Seq<FingerState>,
    Option<InputEvent>,
    bool,
) {
    let f = fingers[s];
    let press = if !f.pressed {
        Some(InputEvent::Gesture(GestureEvent::Press { id: p.id, x: p.x, y: p.y }))
    } else {
        None
    };
    (fingers.update(s, touch_finger(f, p, now)), press, false)
}

/// A resolved swipe or long press closes the chamber its own finger parked,
/// or one parked at the same spot; a faraway other finger's stays.
pub open spec fn close_own(chamber: Option<PendingTap>, id: u8, x: u16, y: u16) -> Option<PendingTap> {
    match chamber {
        Some(p) => if p.owner_id == id || close_pair(p.x, p.y, x, y) {
            None
        } else {
            chamber
        },
        None => None,
    }
}

/// The hold reported for a lift, saturated to `u16`.
pub open spec fn held_report(held: u64) -> u16 {
    if held > u16::MAX {
        u16::MAX
    } else {
        held as u16
    }
}

pub open spec fn tap_of(p: PendingTap) -> InputEvent {
    InputEvent::Gesture(GestureEvent::Tap { id: p.owner_id, x: p.x, y: p.y, held_ms: p.held_ms })
}

/// A finger's lift: a press ever observed at [`SWIPE_MIN_DISTANCE_PX`] is a
/// swipe; a lone hold of [`LONG_PRESS_MS`] with no sibling lift and no other
/// finger down is a long press; a short lift pairs with the chambered tap
/// (in window and close) into a double tap, or parks in the chamber,
/// releasing a stale or faraway chambered tap as a lone tap. The slot is
/// freed on every resolution.
pub open spec fn release_outcome(
    fingers: Seq<FingerState>,
    chamber: Option<PendingTap>,
    slot: int,
    p: TouchPoint,
    now: u64,
    sibling_lift: bool,
) -> (Seq<FingerState>, Option<PendingTap>, Option<InputEvent>) {
    let f = fingers[slot];
    if f.id is None {
        (fingers, chamber, None)
    } else if f.down_at_ms is None {
        (fingers.update(slot, FingerState { pressed: false, ..f }), chamber, None)
    } else {
        let id = f.id.unwrap();
        let held = elapsed(now, f.down_at_ms.unwrap());
        let held_ms = held_report(held);
        let lifted = extend_farthest(FingerState { pressed: false, down_at_ms: None, ..f }, p.x, p.y);
        let kept = fingers.update(slot, lifted);
        let freed = fingers.update(slot, FingerState { id: None, ..lifted });
        let far = lifted.farthest;
        if far is Some && far.unwrap().0 >= SWIPE_MIN_DISTANCE_PX {
            let (distance_px, end_x, end_y) = far.unwrap();
            (
                freed,
                close_own(chamber, id, lifted.down_x, lifted.down_y),
                Some(InputEvent::Gesture(GestureEvent::Swipe {
                    id,
                    direction: dominant_direction(end_x - lifted.down_x, end_y - lifted.down_y),
                    x: lifted.down_x,
                    y: lifted.down_y,
                    end_x,
                    end_y,
                    held_ms,
                    distance_px,
                })),
            )
        } else if held >= LONG_PRESS_MS && !sibling_lift && !any_pressed(kept) {
            (
                freed,
                close_own(chamber, id, lifted.down_x, lifted.down_y),
                Some(InputEvent::Gesture(GestureEvent::LongPress {
                    id,
                    x: lifted.down_x,
                    y: lifted.down_y,
                    held_ms,
                })),
            )
        } else {
            let parked = PendingTap { owner_id: id, first_at_ms: now, x: p.x, y: p.y, held_ms };
            match chamber {
                None => (freed, Some(parked), None),
                Some(pending) => {
                    if elapsed(now, pending.first_at_ms) <= DOUBLE_CLICK_WINDOW_MS && close_pair(
                        pending.x,
                        pending.y,
                        p.x,
                        p.y,
                    ) {
                        (
                            freed,
                            None,
                            Some(InputEvent::Gesture(GestureEvent::DoubleTap {
                                id,
                                x: pending.x,
                                y: pending.y,
                                end_x: p.x,
                                end_y: p.y,
                                held_ms,
                            })),
                        )
                    } else {
                        (freed, Some(parked), Some(tap_of(pending)))
                    }
                },
            }
        }
    }
}

// ---------------------------------------------------------------------------
// One sample.

/// How many points of a sample are read: its `len`, within the array.
pub open spec fn point_count(sample: TouchEvent) -> int {
    if sample.len as int <= MAX_TOUCH_POINTS as int {
        sample.len as int
    } else {
        MAX_TOUCH_POINTS as int
    }
}

/// Another point of the same sample lifts too.
pub open spec fn sibling_lift(sample: TouchEvent, id: u8) -> bool {
    exists|j: int|
        0 <= j < point_count(sample) && (#[trigger] sample.points@[j]).status == TouchStatus::Release
            && sample.points@[j].id != id
}

/// The classifier's working state while one sample is folded in.
pub struct GesturePass {
    pub fingers: Seq<FingerState>,
    pub chamber: Option<PendingTap>,
    pub pushed: Seq<InputEvent>,
    pub saw_phantom: bool,
}

pub open spec fn pushed_with(s: Seq<InputEvent>, e: Option<InputEvent>) -> Seq<InputEvent> {
    match e {
        Some(e) => s.push(e),
        None => s,
    }
}

/// Point `i` of the sample folded in.
pub open spec fn gesture_point(st: GesturePass, sample: TouchEvent, i: int, now: u64) -> GesturePass {
    let p = sample.points@[i];
    match p.status {
        TouchStatus::Release => match slot_of(st.fingers, p.id) {
            None => st,
            Some(s) => {
                let (fingers, chamber, ev) = release_outcome(
                    st.fingers,
                    st.chamber,
                    s,
                    p,
                    now,
                    sibling_lift(sample, p.id),
                );
                GesturePass { fingers, chamber, pushed: pushed_with(st.pushed, ev), saw_phantom: st.saw_phantom }
            },
        },
        _ => {
            let (fingers, ev, phantom) = contact_outcome(st.fingers, p, now);
            GesturePass {
                fingers,
                chamber: st.chamber,
                pushed: pushed_with(st.pushed, ev),
                saw_phantom: st.saw_phantom || phantom,
            }
        },
    }
}

/// The first `n` points folded in order.
pub open spec fn gesture_points(st: GesturePass, sample: TouchEvent, now: u64, n: int) -> GesturePass
    decreases n,
{
    if n <= 0 {
        st
    } else {
        gesture_point(gesture_points(st, sample, now, n - 1), sample, n - 1, now)
    }
}

/// A classified sample: the state after its points, and every gesture it
/// resolved in point order, then the `GhostTouch` pulse that only the rise
/// into a phantom run emits.
pub open spec fn classified(m: GestureModel, sample: TouchEvent, now: u64) -> (GestureModel, Seq<InputEvent>) {
    let start = GesturePass { fingers: m.fingers, chamber: m.chamber, pushed: Seq::empty(), saw_phantom: false };
    let st = gesture_points(start, sample, now, point_count(sample));
    let pushed = if st.saw_phantom && !m.ghosted {
        st.pushed.push(InputEvent::Gesture(GestureEvent::GhostTouch))
    } else {
        st.pushed
    };
    (GestureModel { fingers: st.fingers, chamber: st.chamber, ghosted: st.saw_phantom, queued: m.queued }, pushed)
}

/// The four-slot batch a classified sample hands the channel: its first
/// four gestures.
pub open spec fn fresh_slots(pushed: Seq<InputEvent>) -> Seq<Option<InputEvent>> {
    Seq::new(4, |i: int| if i < pushed.len() { Some(pushed[i]) } else { None })
}

/// What the classifier does with one event: a touch sample is classified
/// and drained with the raw sample as fallback; any other event passes
/// through untouched.
pub open spec fn gesture_feed(m: GestureModel, event: InputEvent, now: u64) -> (GestureModel, Option<InputEvent>) {
    match event {
        InputEvent::Touch(sample) => {
            let (m1, pushed) = classified(m, sample, now);
            let (q, r) = forwarded(m1.queued, fresh_slots(pushed), Some(event));
            (GestureModel { queued: q, ..m1 }, r)
        },
        _ => (m, Some(event)),
    }
}

/// A clock tick: a chambered tap whose window has passed releases as a lone
/// tap; the channel drains with no fallback.
pub open spec fn gesture_tick(m: GestureModel, now: u64) -> (GestureModel, Option<InputEvent>) {
    let expired = m.chamber is Some && elapsed(now, m.chamber.unwrap().first_at_ms) > DOUBLE_CLICK_WINDOW_MS;
    let chamber = if expired { None } else { m.chamber };
    let fresh = if expired {
        seq![Some(tap_of(m.chamber.unwrap())), None, None, None]
    } else {
        seq![None, None, None, None]
    };
    let (q, r) = forwarded(m.queued, fresh, None);
    (GestureModel { chamber, queued: q, ..m }, r)
}

// ---------------------------------------------------------------------------
// The classifier.

/// Folds per-finger touch into `Press` down-edges, deferred `Tap`, in-window
/// `DoubleTap` (paired by position alone, since hardware hands the second
/// physical tap a fresh tracker id), `Swipe` when a press ever travelled
/// [`SWIPE_MIN_DISTANCE_PX`], and lone `LongPress`. A second contact landing
/// within [`PHANTOM_WINDOW_MS`]/[`PHANTOM_RADIUS_PX`] of a down finger is a
/// self-cap phantom echo, rejected and pulsed as `GhostTouch` once per run.
/// Samples that resolve no gesture forward the raw snapshot unchanged;
/// extra resolved gestures buffer for the next poll; non-touch pulses pass
/// through untouched.
#[derive(Debug, Clone, Copy)]
pub struct TouchGestures {
    fingers: [FingerState; MAX_TOUCH_POINTS],
    chamber: Option<PendingTap>,
    ghosted: bool,
    queued: [Option<InputEvent>; 2],
}

pub open spec fn initial_gestures() -> GestureModel {
    GestureModel {
        fingers: Seq::new(MAX_TOUCH_POINTS as nat, |i: int| free_finger()),
        chamber: None,
        ghosted: false,
        queued: (None, None),
    }
}

fn same_owner(a: Option<u8>, b: Option<u8>) -> (r: bool)
    ensures
        r == (a == b),
{
    match (a, b) {
        (Some(x), Some(y)) => x == y,
        (None, None) => true,
        _ => false,
    }
}

fn extend_farthest_exec(f: FingerState, x: u16, y: u16) -> (g: FingerState)
    ensures
        g == extend_farthest(f, x, y),
{
    let far = travel_px(f.down_x, f.down_y, x, y);
    let grows = match f.farthest {
        None => true,
        Some((d, _, _)) => far > d,
    };
    if grows {
        FingerState { farthest: Some((far, x, y)), ..f }
    } else {
        f
    }
}

impl TouchGestures {
    pub closed spec fn model(&self) -> GestureModel {
        GestureModel {
            fingers: self.fingers@,
            chamber: self.chamber,
            ghosted: self.ghosted,
            queued: (self.queued[0], self.queued[1]),
        }
    }

    pub fn new() -> (g: Self)
        ensures
            g.model() == initial_gestures(),
    {
        let free = FingerState::free();
        let g = TouchGestures { fingers: [free; MAX_TOUCH_POINTS], chamber: None, ghosted: false, queued: [None, None] };
        assert(g.fingers@ =~= initial_gestures().fingers);
        g
    }

    fn find_owner(&self, id: Option<u8>) -> (r: Option<usize>)
        ensures
            match r {
                Some(i) => scan_owner(self.fingers@, id, 0) == Some(i as int) && i < MAX_TOUCH_POINTS,
                None => scan_owner(self.fingers@, id, 0) is None,
            },
    {
        let mut i: usize = 0;
        while i < MAX_TOUCH_POINTS
            invariant
                0 <= i <= MAX_TOUCH_POINTS,
                scan_owner(self.fingers@, id, 0) == scan_owner(self.fingers@, id, i as int),
            decreases MAX_TOUCH_POINTS - i,
        {
            if same_owner(self.fingers[i].id, id) {
                return Some(i);
            }
            i += 1;
        }
        None
    }

    fn is_phantom(&self, x: u16, y: u16, now_ms: u64) -> (r: bool)
        ensures
            r == is_phantom(self.fingers@, x, y, now_ms),
    {
        let reach_sq: u64 = PHANTOM_RADIUS_PX as u64 * PHANTOM_RADIUS_PX as u64;
        let mut i: usize = 0;
        while i < MAX_TOUCH_POINTS
            invariant
                0 <= i <= MAX_TOUCH_POINTS,
                reach_sq == PHANTOM_RADIUS_PX * PHANTOM_RADIUS_PX,
                forall|j: int| 0 <= j < i ==> !#[trigger] echoes(self.fingers@[j], x, y, now_ms),
            decreases MAX_TOUCH_POINTS - i,
        {
            let f = self.fingers[i];
            let recent = match f.down_at_ms {
                Some(at) => now_ms.saturating_sub(at) <= PHANTOM_WINDOW_MS,
                None => false,
            };
            if f.pressed && recent && sq_dist(f.down_x, f.down_y, x, y) <= reach_sq {
                assert(echoes(self.fingers@[i as int], x, y, now_ms));
                return true;
            }
            i += 1;
        }
        false
    }

    fn any_pressed(&self) -> (r: bool)
        ensures
            r == any_pressed(self.fingers@),
    {
        let mut i: usize = 0;
        while i < MAX_TOUCH_POINTS
            invariant
                0 <= i <= MAX_TOUCH_POINTS,
                forall|j: int| 0 <= j < i ==> !(#[trigger] self.fingers@[j]).pressed,
            decreases MAX_TOUCH_POINTS - i,
        {
            if self.fingers[i].pressed {
                return true;
            }
            i += 1;
        }
        false
    }

    fn free_slot_at(&mut self, slot: usize)
        requires
            slot < MAX_TOUCH_POINTS,
        ensures
            final(self).fingers@ == old(self).fingers@.update(slot as int, FingerState { id: None, ..old(self).fingers@[slot as int] }),
            final(self).chamber == old(self).chamber,
            final(self).ghosted == old(self).ghosted,
            final(self).queued == old(self).queued,
    {
        let f = self.fingers[slot];
        self.fingers[slot] = FingerState { id: None, ..f };
    }

    /// Append a resolved event, dropping the oldest once full.
    fn queue_event(&mut self, event: InputEvent)
        ensures
            (final(self).queued[0], final(self).queued[1]) == queue_push((old(self).queued[0], old(self).queued[1]), event),
            final(self).fingers == old(self).fingers,
            final(self).chamber == old(self).chamber,
            final(self).ghosted == old(self).ghosted,
    {
        if self.queued[0].is_none() {
            self.queued[0] = Some(event);
            return;
        }
        if self.queued[1].is_none() {
            self.queued[1] = Some(event);
            return;
        }
        self.queued[0] = self.queued[1];
        self.queued[1] = Some(event);
    }

    /// FIFO pop of the pending buffer.
    fn pop_event(&mut self) -> (r: Option<InputEvent>)
        ensures
            r == old(self).queued[0],
            final(self).queued[0] == old(self).queued[1],
            final(self).queued[1] is None,
            final(self).fingers == old(self).fingers,
            final(self).chamber == old(self).chamber,
            final(self).ghosted == old(self).ghosted,
    {
        let first = self.queued[0];
        self.queued[0] = self.queued[1];
        self.queued[1] = None;
        first
    }
    /// A `Down`/`Contact` point: see [`contact_outcome`].
    fn touch_contact(&mut self, p: TouchPoint, now_ms: u64) -> (r: (Option<InputEvent>, bool))
        ensures
            (final(self).fingers@, r.0, r.1) == contact_outcome(old(self).fingers@, p, now_ms),
            final(self).chamber == old(self).chamber,
            final(self).ghosted == old(self).ghosted,
            final(self).queued == old(self).queued,
    {
        let slot = match self.find_owner(Some(p.id)) {
            Some(s) => s,
            None => {
                if self.is_phantom(p.x, p.y, now_ms) {
                    return (None, true);
                }
                match self.find_owner(None) {
                    Some(s) => {
                        let f = self.fingers[s];
                        self.fingers[s] = FingerState { id: Some(p.id), ..f };
                        s
                    },
                    None => {
                        return (None, false);
                    },
                }
            },
        };
        let f = self.fingers[slot];
        let armed = !f.pressed;
        let g = if armed {
            FingerState { pressed: true, down_at_ms: Some(now_ms), down_x: p.x, down_y: p.y, farthest: Some((0, p.x, p.y)), ..f }
        } else {
            f
        };
        self.fingers[slot] = extend_farthest_exec(g, p.x, p.y);
        if armed {
            (Some(InputEvent::Gesture(GestureEvent::Press { id: p.id, x: p.x, y: p.y })), false)
        } else {
            (None, false)
        }
    }

    /// A resolved swipe or long press ends the cadence this finger started.
    fn close_own_chamber(&mut self, id: u8, x: u16, y: u16)
        ensures
            final(self).chamber == close_own(old(self).chamber, id, x, y),
            final(self).fingers == old(self).fingers,
            final(self).ghosted == old(self).ghosted,
            final(self).queued == old(self).queued,
    {
        if let Some(pending) = self.chamber {
            let owner = pending.owner_id == id;
            let same_spot = pair_close(pending.x, pending.y, x, y);
            if owner || same_spot {
                self.chamber = None;
            }
        }
    }

    /// Resolve a finger's lift into its gesture (or park its tap in the
    /// chamber), then free its slot: see [`release_outcome`].
    fn resolve_release(&mut self, slot: usize, p: TouchPoint, now_ms: u64, sibling_lift: bool) -> (r: Option<InputEvent>)
        requires
            slot < MAX_TOUCH_POINTS,
        ensures
            (final(self).fingers@, final(self).chamber, r) == release_outcome(
                old(self).fingers@,
                old(self).chamber,
                slot as int,
                p,
                now_ms,
                sibling_lift,
            ),
            final(self).ghosted == old(self).ghosted,
            final(self).queued == old(self).queued,
    {
        let f = self.fingers[slot];
        let id = match f.id {
            Some(id) => id,
            None => {
                return None;
            },
        };
        let down_at = match f.down_at_ms {
            Some(at) => at,
            None => {
                self.fingers[slot] = FingerState { pressed: false, ..f };
                return None;
            },
        };
        let held = now_ms.saturating_sub(down_at);
        let held_ms: u16 = if held > u16::MAX as u64 {
            u16::MAX
        } else {
            held as u16
        };
        let lifted = extend_farthest_exec(FingerState { pressed: false, down_at_ms: None, ..f }, p.x, p.y);
        self.fingers[slot] = lifted;
        let down_x = lifted.down_x;
        let down_y = lifted.down_y;
        if let Some((distance_px, end_x, end_y)) = lifted.farthest {
            if distance_px >= SWIPE_MIN_DISTANCE_PX {
                let direction = dominant_axis(end_x as i32 - down_x as i32, end_y as i32 - down_y as i32);
                self.close_own_chamber(id, down_x, down_y);
                self.free_slot_at(slot);
                return Some(InputEvent::Gesture(GestureEvent::Swipe {
                    id,
                    direction,
                    x: down_x,
                    y: down_y,
                    end_x,
                    end_y,
                    held_ms,
                    distance_px,
                }));
            }
        }
        if held >= LONG_PRESS_MS && !sibling_lift && !self.any_pressed() {
            self.close_own_chamber(id, down_x, down_y);
            self.free_slot_at(slot);
            return Some(InputEvent::Gesture(GestureEvent::LongPress { id, x: down_x, y: down_y, held_ms }));
        }
        let parked = PendingTap { owner_id: id, first_at_ms: now_ms, x: p.x, y: p.y, held_ms };
        match self.chamber {
            None => {
                self.chamber = Some(parked);
                self.free_slot_at(slot);
                None
            },
            Some(pending) => {
                if now_ms.saturating_sub(pending.first_at_ms) <= DOUBLE_CLICK_WINDOW_MS && pair_close(
                    pending.x,
                    pending.y,
                    p.x,
                    p.y,
                ) {
                    self.chamber = None;
                    self.free_slot_at(slot);
                    Some(InputEvent::Gesture(GestureEvent::DoubleTap {
                        id,
                        x: pending.x,
                        y: pending.y,
                        end_x: p.x,
                        end_y: p.y,
                        held_ms,
                    }))
                } else {
                    self.chamber = Some(parked);
                    self.free_slot_at(slot);
                    Some(InputEvent::Gesture(GestureEvent::Tap {
                        id: pending.owner_id,
                        x: pending.x,
                        y: pending.y,
                        held_ms: pending.held_ms,
                    }))
                }
            },
        }
    }
    /// Whether another of the first `n` points lifts too.
    fn sibling_lift_exec(sample: &TouchEvent, n: usize, id: u8) -> (r: bool)
        requires
            n as int == point_count(*sample),
        ensures
            r == sibling_lift(*sample, id),
    {
        let mut j: usize = 0;
        while j < n
            invariant
                0 <= j <= n,
                n as int == point_count(*sample),
                n <= MAX_TOUCH_POINTS,
                forall|k: int|
                    0 <= k < j ==> !((#[trigger] sample.points@[k]).status == TouchStatus::Release
                        && sample.points@[k].id != id),
            decreases n - j,
        {
            let q = sample.points[j];
            let lifts = match q.status {
                TouchStatus::Release => true,
                _ => false,
            };
            if lifts && q.id != id {
                assert(sample.points@[j as int] == q);
                return true;
            }
            j += 1;
        }
        false
    }

    /// Classify one sample, writing every resolved gesture in point order
    /// (then any phantom pulse) into the first slots of `out`.
    fn classify(&mut self, sample: &TouchEvent, now_ms: u64, out: &mut [Option<InputEvent>; 4])
        requires
            forall|i: int| 0 <= i < 4 ==> (#[trigger] old(out)@[i]) is None,
        ensures
            ({
                let (m, pushed) = classified(old(self).model(), *sample, now_ms);
                &&& final(self).fingers@ == m.fingers
                &&& final(self).chamber == m.chamber
                &&& final(self).ghosted == m.ghosted
                &&& final(self).queued == old(self).queued
                &&& final(out)@ == fresh_slots(pushed)
            }),
    {
        let n: usize = if (sample.len as usize) <= MAX_TOUCH_POINTS {
            sample.len as usize
        } else {
            MAX_TOUCH_POINTS
        };
        let ghost start = GesturePass {
            fingers: self.fingers@,
            chamber: self.chamber,
            pushed: Seq::empty(),
            saw_phantom: false,
        };
        let mut k: usize = 0;
        let mut saw_phantom = false;
        assert(out@ =~= fresh_slots(Seq::empty()));
        let mut i: usize = 0;
        while i < n
            invariant
                0 <= i <= n,
                n as int == point_count(*sample),
                n <= MAX_TOUCH_POINTS,
                self.ghosted == old(self).ghosted,
                self.queued == old(self).queued,
                ({
                    let st = gesture_points(start, *sample, now_ms, i as int);
                    &&& st.fingers == self.fingers@
                    &&& st.chamber == self.chamber
                    &&& st.pushed.len() == k as int
                    &&& st.saw_phantom == saw_phantom
                    &&& out@ == fresh_slots(st.pushed)
                }),
                k <= i,
            decreases n - i,
        {
            let ghost before = gesture_points(start, *sample, now_ms, i as int);
            let p = sample.points[i];
            let mut resolved: Option<InputEvent> = None;
            match p.status {
                TouchStatus::Release => {
                    match self.find_owner(Some(p.id)) {
                        None => {},
                        Some(slot) => {
                            let sibling = Self::sibling_lift_exec(sample, n, p.id);
                            resolved = self.resolve_release(slot, p, now_ms, sibling);
                        },
                    }
                },
                _ => {
                    let (event, phantom) = self.touch_contact(p, now_ms);
                    if phantom {
                        saw_phantom = true;
                    }
                    resolved = event;
                },
            }
            if let Some(e) = resolved {
                if k < 4 {
                    out[k] = Some(e);
                }
                proof {
                    assert(fresh_slots(before.pushed.push(e)) =~= if k < 4 {
                        fresh_slots(before.pushed).update(k as int, Some(e))
                    } else {
                        fresh_slots(before.pushed)
                    });
                }
                k = k + 1;
            }
            i += 1;
        }
        if !saw_phantom {
            self.ghosted = false;
        } else if !self.ghosted {
            self.ghosted = true;
            let ghost before = gesture_points(start, *sample, now_ms, n as int);
            if k < 4 {
                out[k] = Some(InputEvent::Gesture(GestureEvent::GhostTouch));
            }
            proof {
                let e = InputEvent::Gesture(GestureEvent::GhostTouch);
                assert(fresh_slots(before.pushed.push(e)) =~= if k < 4 {
                    fresh_slots(before.pushed).update(k as int, Some(e))
                } else {
                    fresh_slots(before.pushed)
                });
            }
        }
    }
    /// Drain the event channel: see [`forwarded`].
    fn forward(&mut self, fresh: &[Option<InputEvent>; 4], fallback: Option<InputEvent>) -> (r: Option<InputEvent>)
        ensures
            ((final(self).queued[0], final(self).queued[1]), r) == forwarded(
                (old(self).queued[0], old(self).queued[1]),
                fresh@,
                fallback,
            ),
            final(self).fingers == old(self).fingers,
            final(self).chamber == old(self).chamber,
            final(self).ghosted == old(self).ghosted,
    {
        let popped = self.pop_event();
        let ghost q1 = (self.queued[0], self.queued[1]);
        let mut i: usize = 0;
        match popped {
            Some(older) => {
                while i < 4
                    invariant
                        0 <= i <= 4,
                        (self.queued[0], self.queued[1]) == queue_all(q1, flattened(fresh@.take(i as int))),
                        self.fingers == old(self).fingers,
                        self.chamber == old(self).chamber,
                        self.ghosted == old(self).ghosted,
                    decreases 4 - i,
                {
                    proof {
                        assert(fresh@.take(i + 1).drop_last() =~= fresh@.take(i as int));
                    }
                    let ghost f = flattened(fresh@.take(i as int));
                    if let Some(e) = fresh[i] {
                        self.queue_event(e);
                        proof {
                            assert(f.push(e).drop_last() =~= f);
                        }
                    }
                    i += 1;
                }
                proof {
                    assert(fresh@.take(4) =~= fresh@);
                    lemma_flattened_empty(fresh@);
                }
                let quiet = fresh[0].is_none() && fresh[1].is_none() && fresh[2].is_none() && fresh[3].is_none();
                if let Some(fill) = fallback {
                    if quiet {
                        self.queue_event(fill);
                    }
                }
                Some(older)
            },
            None => {
                let mut first: Option<InputEvent> = None;
                while i < 4
                    invariant
                        0 <= i <= 4,
                        ({
                            let f = flattened(fresh@.take(i as int));
                            &&& f.len() == 0 ==> first is None && (self.queued[0], self.queued[1]) == q1
                            &&& f.len() > 0 ==> first == Some(f[0]) && (self.queued[0], self.queued[1])
                                == queue_all(q1, f.drop_first())
                        }),
                        self.fingers == old(self).fingers,
                        self.chamber == old(self).chamber,
                        self.ghosted == old(self).ghosted,
                    decreases 4 - i,
                {
                    let ghost f = flattened(fresh@.take(i as int));
                    proof {
                        assert(fresh@.take(i + 1).drop_last() =~= fresh@.take(i as int));
                    }
                    if let Some(e) = fresh[i] {
                        if first.is_none() {
                            first = Some(e);
                        } else {
                            self.queue_event(e);
                            proof {
                                assert(f.push(e).drop_first() =~= f.drop_first().push(e));
                                assert(f.drop_first().push(e).drop_last() =~= f.drop_first());
                            }
                        }
                    }
                    i += 1;
                }
                proof {
                    assert(fresh@.take(4) =~= fresh@);
                }
                match first {
                    Some(e) => Some(e),
                    None => fallback,
                }
            },
        }
    }

    /// Feed one event: see [`gesture_feed`].
    pub fn feed(&mut self, event: InputEvent, now_ms: u64) -> (r: Option<InputEvent>)
        ensures
            (final(self).model(), r) == gesture_feed(old(self).model(), event, now_ms),
            !(event is Touch) ==> r == Some(event) && final(self).model() == old(self).model(),
    {
        let sample = match event {
            InputEvent::Touch(sample) => sample,
            _ => {
                return Some(event);
            },
        };
        let mut backlog: [Option<InputEvent>; 4] = [None, None, None, None];
        self.classify(&sample, now_ms, &mut backlog);
        let r = self.forward(&backlog, Some(InputEvent::Touch(sample)));
        proof {
            let (m1, pushed) = classified(old(self).model(), sample, now_ms);
            assert(self.model() =~= gesture_feed(old(self).model(), event, now_ms).0);
        }
        r
    }

    /// Advance the clock without a sample: see [`gesture_tick`].
    pub fn tick(&mut self, now_ms: u64) -> (r: Option<InputEvent>)
        ensures
            (final(self).model(), r) == gesture_tick(old(self).model(), now_ms),
    {
        let mut expired: [Option<InputEvent>; 4] = [None, None, None, None];
        if let Some(pending) = self.chamber {
            if now_ms.saturating_sub(pending.first_at_ms) > DOUBLE_CLICK_WINDOW_MS {
                self.chamber = None;
                expired[0] = Some(InputEvent::Gesture(GestureEvent::Tap {
                    id: pending.owner_id,
                    x: pending.x,
                    y: pending.y,
                    held_ms: pending.held_ms,
                }));
            }
        }
        proof {
            let m = old(self).model();
            let exp = m.chamber is Some && elapsed(now_ms, m.chamber.unwrap().first_at_ms) > DOUBLE_CLICK_WINDOW_MS;
            if exp {
                assert(expired@ =~= seq![Some(tap_of(m.chamber.unwrap())), None, None, None]);
            } else {
                assert(expired@ =~= seq![None::<InputEvent>, None, None, None]);
            }
        }
        let r = self.forward(&expired, None);
        proof {
            assert(self.model() =~= gesture_tick(old(self).model(), now_ms).0);
        }
        r
    }
}

proof fn lemma_flattened_empty(s: Seq<Option<InputEvent>>)
    requires
        s.len() == 4,
    ensures
        flattened(s).len() == 0 <==> (s[0] is None && s[1] is None && s[2] is None && s[3] is None),
{
    reveal_with_fuel(flattened, 5);
    assert(s.drop_last().drop_last().drop_last().drop_last() =~= Seq::<Option<InputEvent>>::empty());
    assert(flattened(s.drop_last().drop_last().drop_last()).len() <= 1);
}

impl Default for TouchGestures {
    fn default() -> (g: Self)
        ensures
            g.model() == initial_gestures(),
    {
        TouchGestures::new()
    }
}

impl EventAggregator for TouchGestures {
    open spec fn fed(&self, event: InputEvent, now_ms: u64) -> Option<InputEvent> {
        gesture_feed(self.model(), event, now_ms).1
    }

    open spec fn ticked(&self, now_ms: u64) -> Option<InputEvent> {
        gesture_tick(self.model(), now_ms).1
    }

    fn feed(&mut self, event: InputEvent, now_ms: u64) -> (r: Option<InputEvent>)
        ensures
            (final(self).model(), r) == gesture_feed(old(self).model(), event, now_ms),
            !(event is Touch) ==> r == Some(event) && final(self).model() == old(self).model(),
    {
        TouchGestures::feed(self, event, now_ms)
    }

    fn tick(&mut self, now_ms: u64) -> (r: Option<InputEvent>)
        ensures
            (final(self).model(), r) == gesture_tick(old(self).model(), now_ms),
    {
        TouchGestures::tick(self, now_ms)
    }
}

} // verus!
