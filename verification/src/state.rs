//! The device state and its single owner. Producers apply absolute target
//! states wholesale; the operation plane only records diagnostics (touch
//! snapshots, live contact slots, gesture tallies, motion readouts) and never
//! moves a light.
use vstd::prelude::*;

use vstd::array::spec_array_update;
use crate::drivers::input::{
    direction_between, direction_code, move_direction, FingerLast, GestureEvent, InputEvent,
    SwipeDirection, TouchEvent, TouchPoint, TouchStatus, FINGER_DOUBLE_TAP, FINGER_LONG_PRESS,
    FINGER_NONE, FINGER_SWIPE, FINGER_TAP, MAX_TOUCH_POINTS, MAX_TRACKED_POINTS, MOVE_DEADBAND_PX,
};
use crate::drivers::light::{Rgb, GROUP_CAPACITY, MAX_LIGHTS};
use crate::drivers::motion::event::{counts_bumped, zero_counts};
use crate::drivers::motion::{MotionCounts, MotionEvent, MotionSample};
use crate::intent::{BusinessIntent, OperationIntent};

verus! {

/// A live contact slot: the tracker `id` that owns it plus where it last
/// landed, in framebuffer space.
#[derive(Debug, Clone, Copy, PartialEq, Eq, Structural)]
pub struct LivePoint {
    pub id: u8,
    pub x: u16,
    pub y: u16,
}

/// A breathing schedule: brightness envelope plus the hue path it travels.
#[derive(Debug, Clone, Copy, PartialEq, Eq)]
pub struct Breath {
    pub period_ms: u32,
    pub hue_period_ms: u32,
    /// Hue sweep width; `0` means a static standalone color. Ignored when
    /// `group_len > 0`.
    pub hue_span: u8,
    /// Trough of the brightness envelope; a nonzero floor keeps the glow lit.
    pub min_brightness: u8,
    pub max_brightness: u8,
    pub saturation: u8,
    /// Base hue the sweep starts from. Ignored when `group_len > 0`.
    pub hue: u8,
    /// Color waypoints on the 256-step hue wheel; `group_len` picks the
    /// trajectory: `0` the `hue`/`hue_span` sweep, `1` a static color,
    /// `>= 2` a rotation through the waypoints.
    pub group: [u8; GROUP_CAPACITY],
    pub group_len: u8,
}

/// Light behavior, read by the render loop.
#[derive(Debug, Clone, Copy, PartialEq, Eq)]
pub enum LightState {
    Off,
    Solid { color: Rgb, brightness: u8 },
    Breath(Breath),
}

/// All state owned by the device manager: one light slot per surface in
/// wiring order, and the device-level touch and motion readouts.
#[derive(Debug, Clone, Copy, PartialEq, Eq)]
pub struct DeviceState {
    /// Independent state of every light surface, in board wiring order.
    pub lights: [LightState; MAX_LIGHTS],
    /// Most recent touch snapshot.
    pub touch: Option<TouchEvent>,
    /// Live contact positions, freed as soon as a finger lifts or resolves
    /// a gesture.
    pub touch_points: [Option<LivePoint>; MAX_TRACKED_POINTS],
    /// Direction code of each live slot's last frame-to-frame move; `0`
    /// while still or free.
    pub live_dir: [u8; MAX_TRACKED_POINTS],
    /// Rises when two slots become live together; saturated.
    pub two_finger_runs: u8,
    /// Applied raw-frame heartbeat, wrapping.
    pub touch_frames: u16,
    /// Last resolved gesture of each tracked slot.
    pub finger: [FingerLast; MAX_TRACKED_POINTS],
    /// Hold (ms) of the most recent resolved gesture lift.
    pub touch_held_ms: u16,
    pub tap_count: u8,
    /// Press pulses, one per down edge.
    pub press_count: u8,
    pub double_tap_count: u8,
    pub long_press_count: u8,
    /// Input-path anomaly runs; saturated.
    pub ghost_count: u8,
    pub swipe_count: u8,
    /// Direction and travel of the most recent resolved swipe.
    pub last_swipe: Option<(SwipeDirection, u16)>,
    /// Where the most recent resolved gesture began.
    pub last_gesture_origin: Option<(u16, u16)>,
    /// Trailing point of the most recent two-point gesture.
    pub last_gesture_end: Option<(u16, u16)>,
    /// Last raw touch-controller gesture register, verbatim.
    pub chip_gesture_id: u8,
    /// Most recent motion frame.
    pub motion: Option<MotionSample>,
    /// Motion semantics seen so far, per kind.
    pub motion_counts: MotionCounts,
}

pub const DEFAULT_PERIOD_MS: u32 = 3_000;
pub const DEFAULT_HUE_PERIOD_MS: u32 = 60_000;
pub const DEFAULT_HUE_SPAN: u8 = 255;
pub const DEFAULT_MIN_BRIGHTNESS: u8 = 24;
pub const DEFAULT_MAX_BRIGHTNESS: u8 = 80;
pub const DEFAULT_SATURATION: u8 = 200;
pub const DEFAULT_HUE: u8 = 0;
/// Warm sunset: amber, golden, deep rose.
pub const DEFAULT_GROUP: [u8; GROUP_CAPACITY] = [16, 32, 3, 0, 0, 0, 0];
pub const DEFAULT_GROUP_LEN: u8 = 3;
/// Full-brightness entry point for solid mode.
pub const SOLID_DEFAULT_BRIGHTNESS: u8 = 255;
/// Backlight floor (percent) for the breathing envelope.
pub const BACKLIGHT_FLOOR_PCT: u8 = 12;

/// The boot light: the default breath.
pub open spec fn boot_light() -> LightState {
    LightState::Breath(
        Breath {
            period_ms: DEFAULT_PERIOD_MS,
            hue_period_ms: DEFAULT_HUE_PERIOD_MS,
            hue_span: DEFAULT_HUE_SPAN,
            min_brightness: DEFAULT_MIN_BRIGHTNESS,
            max_brightness: DEFAULT_MAX_BRIGHTNESS,
            saturation: DEFAULT_SATURATION,
            hue: DEFAULT_HUE,
            group: DEFAULT_GROUP,
            group_len: DEFAULT_GROUP_LEN,
        },
    )
}

pub open spec fn empty_finger() -> FingerLast {
    FingerLast { kind: FINGER_NONE, dir: 0, value: 0 }
}

/// The state a device boots into.
pub open spec fn boot_state() -> DeviceState {
    DeviceState {
        lights: [boot_light(), boot_light()],
        touch: None,
        touch_points: [None, None],
        live_dir: [0u8, 0u8],
        two_finger_runs: 0,
        touch_frames: 0,
        finger: [empty_finger(), empty_finger()],
        touch_held_ms: 0,
        tap_count: 0,
        press_count: 0,
        double_tap_count: 0,
        long_press_count: 0,
        ghost_count: 0,
        swipe_count: 0,
        last_swipe: None,
        last_gesture_origin: None,
        last_gesture_end: None,
        chip_gesture_id: 0,
        motion: None,
        motion_counts: zero_counts(),
    }
}

impl LightState {
    pub fn boot() -> (l: Self)
        ensures
            l == boot_light(),
    {
        LightState::Breath(
            Breath {
                period_ms: DEFAULT_PERIOD_MS,
                hue_period_ms: DEFAULT_HUE_PERIOD_MS,
                hue_span: DEFAULT_HUE_SPAN,
                min_brightness: DEFAULT_MIN_BRIGHTNESS,
                max_brightness: DEFAULT_MAX_BRIGHTNESS,
                saturation: DEFAULT_SATURATION,
                hue: DEFAULT_HUE,
                group: DEFAULT_GROUP,
                group_len: DEFAULT_GROUP_LEN,
            },
        )
    }
}

impl Default for LightState {
    fn default() -> (l: Self)
        ensures
            l == boot_light(),
    {
        LightState::boot()
    }
}

impl Default for DeviceState {
    fn default() -> (s: Self)
        ensures
            s == boot_state(),
    {
        boot_device_state()
    }
}

fn boot_device_state() -> (s: DeviceState)
    ensures
        s == boot_state(),
{
    let finger = FingerLast::empty();
    let s = DeviceState {
        lights: [LightState::boot(), LightState::boot()],
        touch: None,
        touch_points: [None, None],
        live_dir: [0, 0],
        two_finger_runs: 0,
        touch_frames: 0,
        finger: [finger, finger],
        touch_held_ms: 0,
        tap_count: 0,
        press_count: 0,
        double_tap_count: 0,
        long_press_count: 0,
        ghost_count: 0,
        swipe_count: 0,
        last_swipe: None,
        last_gesture_origin: None,
        last_gesture_end: None,
        chip_gesture_id: 0,
        motion: None,
        motion_counts: MotionCounts::zero(),
    };
    assert(s.lights =~= boot_state().lights);
    assert(s.touch_points =~= boot_state().touch_points);
    assert(s.live_dir =~= boot_state().live_dir);
    assert(s.finger =~= boot_state().finger);
    s
}

// ---------------------------------------------------------------------------
// Live contact slots.

/// First slot at or after `i` owned by tracker `id`.
pub open spec fn scan_live(points: Seq<Option<LivePoint>>, id: u8, i: int) -> Option<int>
    decreases points.len() - i,
{
    if i < 0 || i >= points.len() {
        None
    } else if points[i] matches Some(l) && l.id == id {
        Some(i)
    } else {
        scan_live(points, id, i + 1)
    }
}

/// First free slot at or after `i`.
pub open spec fn scan_free(points: Seq<Option<LivePoint>>, i: int) -> Option<int>
    decreases points.len() - i,
{
    if i < 0 || i >= points.len() {
        None
    } else if points[i] is None {
        Some(i)
    } else {
        scan_free(points, i + 1)
    }
}

pub open spec fn point_slot(points: [Option<LivePoint>; MAX_TRACKED_POINTS], id: u8) -> Option<int> {
    scan_live(points@, id, 0)
}

/// How many slots are live.
pub open spec fn live_count(points: [Option<LivePoint>; MAX_TRACKED_POINTS]) -> int {
    (if points[0] is Some { 1int } else { 0int }) + (if points[1] is Some { 1int } else { 0int })
}

/// A point upserted into its tracker's slot, or the first free one; with no
/// slot to spare it is dropped. Also yields the slot that owns it.
pub open spec fn upserted(points: [Option<LivePoint>; MAX_TRACKED_POINTS], id: u8, x: u16, y: u16) -> (
    [Option<LivePoint>; MAX_TRACKED_POINTS],
    Option<int>,
) {
    let slot = match point_slot(points, id) {
        Some(s) => Some(s),
        None => scan_free(points@, 0),
    };
    match slot {
        Some(s) => (spec_array_update(points, s, Some(LivePoint { id, x, y })), Some(s)),
        None => (points, None),
    }
}

pub open spec fn cleared(points: [Option<LivePoint>; MAX_TRACKED_POINTS], id: u8) -> [Option<LivePoint>; MAX_TRACKED_POINTS] {
    match point_slot(points, id) {
        Some(s) => spec_array_update(points, s, None),
        None => points,
    }
}

/// A saturated rise counter: bumped on the transition into two live slots.
pub open spec fn runs_bumped(runs: u8, before: int, after: int) -> u8 {
    if before < 2 && after >= 2 && runs < 255 {
        (runs + 1) as u8
    } else {
        runs
    }
}

/// One raw point folded into the live slots: a down/held contact records
/// its move direction (past the deadband) and upserts; a release clears.
pub open spec fn track_live(
    points: [Option<LivePoint>; MAX_TRACKED_POINTS],
    dirs: [u8; MAX_TRACKED_POINTS],
    p: TouchPoint,
) -> ([Option<LivePoint>; MAX_TRACKED_POINTS], [u8; MAX_TRACKED_POINTS]) {
    match p.status {
        TouchStatus::Release => {
            let dirs2 = match point_slot(points, p.id) {
                Some(s) => spec_array_update(dirs, s, 0u8),
                None => dirs,
            };
            (cleared(points, p.id), dirs2)
        },
        _ => {
            let dirs2 = match point_slot(points, p.id) {
                Some(s) => match points[s] {
                    Some(live) => match move_direction(live.x, live.y, p.x, p.y, MOVE_DEADBAND_PX) {
                        Some(d) => spec_array_update(dirs, s, direction_code(d)),
                        None => dirs,
                    },
                    None => dirs,
                },
                None => dirs,
            };
            (upserted(points, p.id, p.x, p.y).0, dirs2)
        },
    }
}

/// The first `n` points of a snapshot folded in order.
pub open spec fn track_live_upto(
    points: [Option<LivePoint>; MAX_TRACKED_POINTS],
    dirs: [u8; MAX_TRACKED_POINTS],
    raw: Seq<TouchPoint>,
    n: int,
) -> ([Option<LivePoint>; MAX_TRACKED_POINTS], [u8; MAX_TRACKED_POINTS])
    decreases n,
{
    if n <= 0 {
        (points, dirs)
    } else {
        let (p, d) = track_live_upto(points, dirs, raw, n - 1);
        track_live(p, d, raw[n - 1])
    }
}

pub open spec fn wrap_inc8(v: u8) -> u8 {
    if v == 255 {
        0
    } else {
        (v + 1) as u8
    }
}

pub open spec fn wrap_inc16(v: u16) -> u16 {
    if v == 65535 {
        0
    } else {
        (v + 1) as u16
    }
}

/// A snapshot's points, within the array.
pub open spec fn snapshot_count(e: TouchEvent) -> int {
    if e.len as int <= MAX_TOUCH_POINTS as int {
        e.len as int
    } else {
        MAX_TOUCH_POINTS as int
    }
}

/// A raw snapshot: its points fold into the live slots, the two-finger
/// counter rises on the transition into two live slots, the heartbeat ticks,
/// and the frame is stored.
pub open spec fn snapshot_applied(s: DeviceState, e: TouchEvent) -> DeviceState {
    let (points, dirs) = track_live_upto(s.touch_points, s.live_dir, e.points@, snapshot_count(e));
    DeviceState {
        touch_points: points,
        live_dir: dirs,
        two_finger_runs: runs_bumped(s.two_finger_runs, live_count(s.touch_points), live_count(points)),
        touch_frames: wrap_inc16(s.touch_frames),
        touch: Some(e),
        ..s
    }
}

/// A resolved gesture's record on its slot: the slot's last gesture is
/// stamped and its live point and arrow freed.
pub open spec fn gesture_recorded(s: DeviceState, id: u8, last: FingerLast) -> DeviceState {
    match point_slot(s.touch_points, id) {
        Some(slot) => DeviceState {
            finger: spec_array_update(s.finger, slot, last),
            touch_points: spec_array_update(s.touch_points, slot, None),
            live_dir: spec_array_update(s.live_dir, slot, 0u8),
            ..s
        },
        None => s,
    }
}

/// A resolved gesture's tally: hold, origin and end are recorded, then the
/// slot.
pub open spec fn gesture_tallied(
    s: DeviceState,
    id: u8,
    last: FingerLast,
    held_ms: u16,
    origin: (u16, u16),
    end: Option<(u16, u16)>,
) -> DeviceState {
    gesture_recorded(
        DeviceState { touch_held_ms: held_ms, last_gesture_origin: Some(origin), last_gesture_end: end, ..s },
        id,
        last,
    )
}

/// Every semantic of a batch counted in order.
pub open spec fn counts_after(c: MotionCounts, events: Seq<MotionEvent>) -> MotionCounts
    decreases events.len(),
{
    if events.len() == 0 {
        c
    } else {
        counts_bumped(counts_after(c, events.drop_last()), events.last())
    }
}

/// What an operation records: press pulses upsert their slot and tally,
/// anomaly pulses saturate, resolved gestures tally and free their slot, a
/// chip read-back is stored, a raw snapshot folds into the live slots, and a
/// motion batch updates the motion readout. Buttons record nothing. No
/// operation moves a light.
pub open spec fn operation_applied(s: DeviceState, op: OperationIntent) -> DeviceState {
    match op.event {
        InputEvent::Button(_) => s,
        InputEvent::Gesture(g) => match g {
            GestureEvent::Press { id, x, y } => {
                let (points, slot) = upserted(s.touch_points, id, x, y);
                DeviceState {
                    touch_points: points,
                    live_dir: match slot {
                        Some(k) => spec_array_update(s.live_dir, k, 0u8),
                        None => s.live_dir,
                    },
                    two_finger_runs: runs_bumped(s.two_finger_runs, live_count(s.touch_points), live_count(points)),
                    press_count: wrap_inc8(s.press_count),
                    ..s
                }
            },
            GestureEvent::GhostTouch => DeviceState {
                ghost_count: if s.ghost_count < 255 { (s.ghost_count + 1) as u8 } else { 255u8 },
                ..s
            },
            GestureEvent::Tap { id, x, y, held_ms } => DeviceState {
                tap_count: wrap_inc8(s.tap_count),
                ..gesture_tallied(s, id, FingerLast { kind: FINGER_TAP, dir: 0, value: held_ms }, held_ms, (x, y), None)
            },
            GestureEvent::DoubleTap { id, x, y, end_x, end_y, held_ms } => DeviceState {
                double_tap_count: wrap_inc8(s.double_tap_count),
                ..gesture_tallied(
                    s,
                    id,
                    FingerLast { kind: FINGER_DOUBLE_TAP, dir: 0, value: held_ms },
                    held_ms,
                    (x, y),
                    Some((end_x, end_y)),
                )
            },
            GestureEvent::LongPress { id, x, y, held_ms } => DeviceState {
                long_press_count: wrap_inc8(s.long_press_count),
                ..gesture_tallied(
                    s,
                    id,
                    FingerLast { kind: FINGER_LONG_PRESS, dir: 0, value: held_ms },
                    held_ms,
                    (x, y),
                    None,
                )
            },
            GestureEvent::Swipe { id, direction, x, y, end_x, end_y, held_ms, distance_px } => DeviceState {
                swipe_count: wrap_inc8(s.swipe_count),
                ..gesture_tallied(
                    DeviceState { last_swipe: Some((direction, distance_px)), ..s },
                    id,
                    FingerLast { kind: FINGER_SWIPE, dir: direction_code(direction), value: distance_px },
                    held_ms,
                    (x, y),
                    Some((end_x, end_y)),
                )
            },
        },
        InputEvent::ChipGesture(id) => DeviceState { chip_gesture_id: id, ..s },
        InputEvent::Touch(e) => snapshot_applied(s, e),
        InputEvent::Motion(batch) => DeviceState {
            motion: Some(batch.sample),
            motion_counts: counts_after(s.motion_counts, batch.events.events()),
            ..s
        },
    }
}

/// The surface an instance names, clamped to the installed array.
pub open spec fn clamped_instance(instance: int) -> int {
    if instance < MAX_LIGHTS {
        instance
    } else {
        MAX_LIGHTS - 1
    }
}

/// A business intent applied: `SetLight` replaces its (clamped) surface,
/// `Invalid` changes nothing.
pub open spec fn business_applied(s: DeviceState, intent: BusinessIntent) -> DeviceState {
    match intent {
        BusinessIntent::Invalid => s,
        BusinessIntent::SetLight { instance, state } => DeviceState {
            lights: spec_array_update(s.lights, clamped_instance(instance as int), state),
            ..s
        },
    }
}

// ---------------------------------------------------------------------------
// The manager.

/// Single owner of device state. Producers apply absolute target states
/// wholesale, so the device never needs to remember "last breath".
pub struct DeviceManager {
    state: DeviceState,
}

impl DeviceManager {
    pub closed spec fn snapshot(&self) -> DeviceState {
        self.state
    }

    pub fn new() -> (m: Self)
        ensures
            m.snapshot() == boot_state(),
    {
        DeviceManager { state: boot_device_state() }
    }

    /// Apply an absolute target to the `instance`-th light surface, clamped
    /// to the installed array.
    pub fn apply_to(&mut self, instance: usize, state: LightState)
        ensures
            final(self).snapshot() == (DeviceState {
                lights: spec_array_update(old(self).snapshot().lights, clamped_instance(instance as int), state),
                ..old(self).snapshot()
            }),
    {
        let slot = if instance < MAX_LIGHTS { instance } else { MAX_LIGHTS - 1 };
        self.state.lights[slot] = state;
        assert(self.state.lights =~= spec_array_update(old(self).state.lights, clamped_instance(instance as int), state));
    }

    fn live_point_count(&self) -> (n: usize)
        ensures
            n == live_count(self.state.touch_points),
    {
        let a: usize = if self.state.touch_points[0].is_some() { 1 } else { 0 };
        let b: usize = if self.state.touch_points[1].is_some() { 1 } else { 0 };
        a + b
    }

    /// The slot owning `id`, if that tracker is live.
    fn point_slot(&self, id: u8) -> (r: Option<usize>)
        ensures
            match r {
                Some(i) => point_slot(self.state.touch_points, id) == Some(i as int) && i < MAX_TRACKED_POINTS,
                None => point_slot(self.state.touch_points, id) is None,
            },
    {
        let mut i: usize = 0;
        while i < MAX_TRACKED_POINTS
            invariant
                0 <= i <= MAX_TRACKED_POINTS,
                scan_live(self.state.touch_points@, id, 0) == scan_live(self.state.touch_points@, id, i as int),
            decreases MAX_TRACKED_POINTS - i,
        {
            if let Some(l) = self.state.touch_points[i] {
                if l.id == id {
                    return Some(i);
                }
            }
            i += 1;
        }
        None
    }

    fn free_point_slot(&self) -> (r: Option<usize>)
        ensures
            match r {
                Some(i) => scan_free(self.state.touch_points@, 0) == Some(i as int) && i < MAX_TRACKED_POINTS,
                None => scan_free(self.state.touch_points@, 0) is None,
            },
    {
        let mut i: usize = 0;
        while i < MAX_TRACKED_POINTS
            invariant
                0 <= i <= MAX_TRACKED_POINTS,
                scan_free(self.state.touch_points@, 0) == scan_free(self.state.touch_points@, i as int),
            decreases MAX_TRACKED_POINTS - i,
        {
            if self.state.touch_points[i].is_none() {
                return Some(i);
            }
            i += 1;
        }
        None
    }

    /// Upsert a live point into its tracker's slot, or the first free slot;
    /// see [`upserted`].
    fn upsert_point(&mut self, id: u8, x: u16, y: u16) -> (r: Option<usize>)
        ensures
            (final(self).state.touch_points, match r {
                Some(i) => Some(i as int),
                None => None::<int>,
            }) == upserted(old(self).state.touch_points, id, x, y),
            r matches Some(i) ==> i < MAX_TRACKED_POINTS,
            final(self).state == (DeviceState { touch_points: final(self).state.touch_points, ..old(self).state }),
    {
        let slot = match self.point_slot(id) {
            Some(s) => Some(s),
            None => self.free_point_slot(),
        };
        if let Some(s) = slot {
            self.state.touch_points[s] = Some(LivePoint { id, x, y });
            assert(self.state.touch_points =~= spec_array_update(old(self).state.touch_points, s as int, Some(LivePoint { id, x, y })));
        }
        slot
    }

    fn clear_point(&mut self, id: u8)
        ensures
            final(self).state == (DeviceState { touch_points: cleared(old(self).state.touch_points, id), ..old(self).state }),
    {
        if let Some(slot) = self.point_slot(id) {
            self.state.touch_points[slot] = None;
            assert(self.state.touch_points =~= spec_array_update(old(self).state.touch_points, slot as int, None));
        }
    }

    /// A saturated rise counter: bump once per transition into two live
    /// slots.
    fn bump_two_finger_runs(&mut self, before: usize)
        ensures
            final(self).state == (DeviceState {
                two_finger_runs: runs_bumped(old(self).state.two_finger_runs, before as int, live_count(old(self).state.touch_points)),
                ..old(self).state
            }),
    {
        if before < 2 && self.live_point_count() >= 2 {
            self.state.two_finger_runs = self.state.two_finger_runs.saturating_add(1);
        }
    }

    /// Stamp a slot's last resolved gesture, then free the slot.
    fn record_gesture(&mut self, id: u8, last: FingerLast)
        ensures
            final(self).state == gesture_recorded(old(self).state, id, last),
    {
        if let Some(slot) = self.point_slot(id) {
            self.state.finger[slot] = last;
            self.state.touch_points[slot] = None;
            self.state.live_dir[slot] = 0;
            assert(self.state.finger =~= spec_array_update(old(self).state.finger, slot as int, last));
            assert(self.state.touch_points =~= spec_array_update(old(self).state.touch_points, slot as int, None));
            assert(self.state.live_dir =~= spec_array_update(old(self).state.live_dir, slot as int, 0u8));
        }
    }

    /// Count a resolved touch gesture: see [`gesture_tallied`]. Returns the
    /// counter bumped.
    fn tally_gesture(&mut self, counter: u8, id: u8, last: FingerLast, held_ms: u16, origin: (u16, u16), end: Option<(u16, u16)>) -> (r: u8)
        ensures
            final(self).state == gesture_tallied(old(self).state, id, last, held_ms, origin, end),
            r == wrap_inc8(counter),
    {
        self.state.touch_held_ms = held_ms;
        self.state.last_gesture_origin = Some(origin);
        self.state.last_gesture_end = end;
        self.record_gesture(id, last);
        counter.wrapping_add(1)
    }
}

impl DeviceManager {
    /// Fold a raw snapshot: see [`snapshot_applied`].
    fn apply_snapshot(&mut self, event: TouchEvent)
        ensures
            final(self).state == snapshot_applied(old(self).state, event),
    {
        let before = self.live_point_count();
        let n: usize = if (event.len as usize) <= MAX_TOUCH_POINTS {
            event.len as usize
        } else {
            MAX_TOUCH_POINTS
        };
        let mut i: usize = 0;
        while i < n
            invariant
                0 <= i <= n,
                n as int == snapshot_count(event),
                n <= MAX_TOUCH_POINTS,
                before == live_count(old(self).state.touch_points),
                (self.state.touch_points, self.state.live_dir) == track_live_upto(
                    old(self).state.touch_points,
                    old(self).state.live_dir,
                    event.points@,
                    i as int,
                ),
                self.state == (DeviceState {
                    touch_points: self.state.touch_points,
                    live_dir: self.state.live_dir,
                    ..old(self).state
                }),
            decreases n - i,
        {
            let point = event.points[i];
            let ghost points0 = self.state.touch_points;
            let ghost dirs0 = self.state.live_dir;
            match point.status {
                TouchStatus::Release => {
                    if let Some(slot) = self.point_slot(point.id) {
                        self.state.live_dir[slot] = 0;
                        assert(self.state.live_dir =~= spec_array_update(dirs0, slot as int, 0u8));
                    }
                    self.clear_point(point.id);
                },
                _ => {
                    if let Some(slot) = self.point_slot(point.id) {
                        if let Some(live) = self.state.touch_points[slot] {
                            if let Some(dir) = direction_between(live.x, live.y, point.x, point.y, MOVE_DEADBAND_PX) {
                                self.state.live_dir[slot] = dir.code();
                                assert(self.state.live_dir =~= spec_array_update(dirs0, slot as int, direction_code(dir)));
                            }
                        }
                    }
                    self.upsert_point(point.id, point.x, point.y);
                },
            }
            assert((self.state.touch_points, self.state.live_dir) == track_live(points0, dirs0, event.points@[i as int]));
            i += 1;
        }
        self.bump_two_finger_runs(before);
        self.state.touch_frames = self.state.touch_frames.wrapping_add(1);
        self.state.touch = Some(event);
    }

    /// Record a motion batch: the frame, and every semantic counted.
    fn apply_motion(&mut self, sample: MotionSample, events: Vec<MotionEvent>)
        ensures
            final(self).state == (DeviceState {
                motion: Some(sample),
                motion_counts: counts_after(old(self).state.motion_counts, events@),
                ..old(self).state
            }),
    {
        self.state.motion = Some(sample);
        let mut i: usize = 0;
        while i < events.len()
            invariant
                0 <= i <= events.len(),
                self.state == (DeviceState {
                    motion: Some(sample),
                    motion_counts: counts_after(old(self).state.motion_counts, events@.take(i as int)),
                    ..old(self).state
                }),
            decreases events.len() - i,
        {
            proof {
                assert(events@.take(i + 1).drop_last() =~= events@.take(i as int));
            }
            self.state.motion_counts.bump(events[i]);
            i += 1;
        }
        assert(events@.take(events.len() as int) =~= events@);
    }

    /// Apply an operation-plane intent: record whatever diagnostics the raw
    /// signal carries; see [`operation_applied`]. Never moves a light.
    pub fn apply_operation(&mut self, op: OperationIntent)
        ensures
            final(self).snapshot() == operation_applied(old(self).snapshot(), op),
            final(self).snapshot().lights == old(self).snapshot().lights,
    {
        match op.event {
            InputEvent::Button(_) => {},
            InputEvent::Gesture(GestureEvent::Press { id, x, y }) => {
                let before = self.live_point_count();
                if let Some(slot) = self.upsert_point(id, x, y) {
                    let ghost dirs0 = self.state.live_dir;
                    self.state.live_dir[slot] = 0;
                    assert(self.state.live_dir =~= spec_array_update(dirs0, slot as int, 0u8));
                }
                self.bump_two_finger_runs(before);
                self.state.press_count = self.state.press_count.wrapping_add(1);
            },
            InputEvent::Gesture(GestureEvent::GhostTouch) => {
                self.state.ghost_count = self.state.ghost_count.saturating_add(1);
            },
            InputEvent::Gesture(GestureEvent::Tap { id, x, y, held_ms }) => {
                let counter = self.state.tap_count;
                self.state.tap_count = self.tally_gesture(
                    counter,
                    id,
                    FingerLast { kind: FINGER_TAP, dir: 0, value: held_ms },
                    held_ms,
                    (x, y),
                    None,
                );
            },
            InputEvent::Gesture(GestureEvent::DoubleTap { id, x, y, end_x, end_y, held_ms }) => {
                let counter = self.state.double_tap_count;
                self.state.double_tap_count = self.tally_gesture(
                    counter,
                    id,
                    FingerLast { kind: FINGER_DOUBLE_TAP, dir: 0, value: held_ms },
                    held_ms,
                    (x, y),
                    Some((end_x, end_y)),
                );
            },
            InputEvent::Gesture(GestureEvent::LongPress { id, x, y, held_ms }) => {
                let counter = self.state.long_press_count;
                self.state.long_press_count = self.tally_gesture(
                    counter,
                    id,
                    FingerLast { kind: FINGER_LONG_PRESS, dir: 0, value: held_ms },
                    held_ms,
                    (x, y),
                    None,
                );
            },
            InputEvent::Gesture(GestureEvent::Swipe { id, direction, x, y, end_x, end_y, held_ms, distance_px }) => {
                self.state.last_swipe = Some((direction, distance_px));
                let counter = self.state.swipe_count;
                self.state.swipe_count = self.tally_gesture(
                    counter,
                    id,
                    FingerLast { kind: FINGER_SWIPE, dir: direction.code(), value: distance_px },
                    held_ms,
                    (x, y),
                    Some((end_x, end_y)),
                );
            },
            InputEvent::ChipGesture(id) => {
                self.state.chip_gesture_id = id;
            },
            InputEvent::Touch(event) => {
                self.apply_snapshot(event);
            },
            InputEvent::Motion(batch) => {
                let events = batch.events.iter();
                self.apply_motion(batch.sample, events);
            },
        }
    }

    /// Apply a business-plane intent: see [`business_applied`].
    pub fn apply_business(&mut self, intent: BusinessIntent)
        ensures
            final(self).snapshot() == business_applied(old(self).snapshot(), intent),
    {
        match intent {
            BusinessIntent::Invalid => {},
            BusinessIntent::SetLight { instance, state } => self.apply_to(instance as usize, state),
        }
    }

    pub fn state(&self) -> (s: DeviceState)
        ensures
            s == self.snapshot(),
    {
        self.state
    }

    pub fn light_state(&self) -> (l: LightState)
        ensures
            l == self.snapshot().lights[0],
    {
        self.state.lights[0]
    }

    /// State of the `instance`-th light surface, clamped like
    /// [`Self::apply_to`].
    pub fn light_state_at(&self, instance: u8) -> (l: LightState)
        ensures
            l == self.snapshot().lights[clamped_instance(instance as int)],
    {
        let slot = if (instance as usize) < MAX_LIGHTS { instance as usize } else { MAX_LIGHTS - 1 };
        self.state.lights[slot]
    }

    /// Latest touch snapshot, or `None` before the first contact.
    pub fn touch_state(&self) -> (t: Option<TouchEvent>)
        ensures
            t == self.snapshot().touch,
    {
        self.state.touch
    }
}

impl Default for DeviceManager {
    fn default() -> (m: Self)
        ensures
            m.snapshot() == boot_state(),
    {
        DeviceManager::new()
    }
}

} // verus!
