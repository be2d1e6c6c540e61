//! The render diff: successive device states reduced to the slot
//! appearances that changed, diagnostics first, then each moved light in
//! wiring order.
use vstd::prelude::*;

use crate::diagnostics::{zero_breath_snapshot, BreathSnapshot, Diagnostics, LightSnapshot, TouchDiagnostics};
use crate::drivers::input::{direction_code, TouchEvent, MAX_TOUCH_POINTS};
use crate::drivers::light::{color_hue, rgb_hue, scale_brightness, scaled_color, Rgb, GROUP_CAPACITY, MAX_LIGHTS};
use crate::drivers::motion::MotionSample;
use crate::state::{clamped_instance, Breath, DeviceState, LightState, LivePoint};

verus! {

/// Light-mode codes carried by [`LightSnapshot::mode`].
pub const MODE_OFF: u8 = 0;
pub const MODE_BREATH: u8 = 1;
pub const MODE_SOLID: u8 = 2;

/// A device slot the render layer knows about.
#[derive(Debug, Clone, Copy, PartialEq, Eq, Structural)]
pub enum Slot {
    Light(u8),
    Diagnostics,
}

/// The declared appearance of a light, derived from state; breathing is the
/// schedule, not a color frame.
#[derive(Debug, Clone, Copy, PartialEq, Eq)]
pub enum LightAppearance {
    Off,
    Color(Rgb),
    Breathing(Breath),
}

/// The intended appearance of one slot.
#[derive(Debug, Clone, Copy, PartialEq, Eq)]
pub enum SlotAppearance {
    Light { instance: u8, appearance: LightAppearance },
    Diagnostics(Diagnostics),
}

pub open spec fn slot_of_appearance(a: SlotAppearance) -> Slot {
    match a {
        SlotAppearance::Light { instance, .. } => Slot::Light(instance),
        SlotAppearance::Diagnostics(_) => Slot::Diagnostics,
    }
}

impl SlotAppearance {
    /// Which slot this appearance belongs to.
    pub fn slot(&self) -> (s: Slot)
        ensures
            s == slot_of_appearance(*self),
    {
        match self {
            SlotAppearance::Light { instance, .. } => Slot::Light(*instance),
            SlotAppearance::Diagnostics(_) => Slot::Diagnostics,
        }
    }
}

/// A light's appearance: solid folds its brightness into the color.
pub open spec fn appearance_of(state: LightState) -> LightAppearance {
    match state {
        LightState::Off => LightAppearance::Off,
        LightState::Solid { color, brightness } => LightAppearance::Color(scaled_color(color, brightness)),
        LightState::Breath(breath) => LightAppearance::Breathing(breath),
    }
}

pub open spec fn saturate16(v: u32) -> u16 {
    if v > u16::MAX {
        u16::MAX
    } else {
        v as u16
    }
}

/// A light's diagnostic snapshot: off is all zero; solid reports its level
/// and hue; breathing reports its ceiling, its group head (the standalone
/// hue when the group is empty) and every dimension, periods saturated.
pub open spec fn snapshot_of(state: LightState) -> LightSnapshot {
    match state {
        LightState::Off => LightSnapshot { mode: MODE_OFF, brightness: 0, hue: 0, breath: zero_breath_snapshot() },
        LightState::Solid { color, brightness } => LightSnapshot {
            mode: MODE_SOLID,
            brightness,
            hue: color_hue(color),
            breath: zero_breath_snapshot(),
        },
        LightState::Breath(b) => LightSnapshot {
            mode: MODE_BREATH,
            brightness: b.max_brightness,
            hue: if b.group_len > 0 { b.group[0] } else { b.hue },
            breath: BreathSnapshot {
                period_ms: saturate16(b.period_ms),
                hue_period_ms: saturate16(b.hue_period_ms),
                hue_span: b.hue_span,
                group_len: b.group_len,
                min_brightness: b.min_brightness,
                max_brightness: b.max_brightness,
                saturation: b.saturation,
            },
        },
    }
}

pub open spec fn position_of(p: Option<LivePoint>) -> Option<(u16, u16)> {
    match p {
        Some(l) => Some((l.x, l.y)),
        None => None,
    }
}

/// The diagnostics a device state folds into: the touch counters and
/// readout, and every light's snapshot in wiring order.
pub open spec fn diagnostics_of(s: DeviceState) -> Diagnostics {
    Diagnostics {
        touch: TouchDiagnostics {
            taps: s.tap_count,
            presses: s.press_count,
            double_taps: s.double_tap_count,
            long_presses: s.long_press_count,
            ghosts: s.ghost_count,
            points: [position_of(s.touch_points[0]), position_of(s.touch_points[1])],
            live_dir: s.live_dir,
            two_finger_runs: s.two_finger_runs,
            frames: s.touch_frames,
            finger: s.finger,
            held_ms: s.touch_held_ms,
            swipes: s.swipe_count,
            last_swipe_dir: match s.last_swipe {
                Some((d, _)) => direction_code(d),
                None => 0,
            },
            last_swipe_dist: match s.last_swipe {
                Some((_, dist)) => dist,
                None => 0,
            },
            last_gesture_origin: s.last_gesture_origin,
            last_gesture_end: s.last_gesture_end,
            chip_gesture_id: s.chip_gesture_id,
        },
        lights: [snapshot_of(s.lights[0]), snapshot_of(s.lights[1])],
    }
}

/// Appearance of the light under `state`, without time information.
pub fn light_appearance(state: LightState) -> (a: LightAppearance)
    ensures
        a == appearance_of(state),
{
    match state {
        LightState::Off => LightAppearance::Off,
        LightState::Solid { color, brightness } => LightAppearance::Color(scale_brightness(color, brightness)),
        LightState::Breath(breath) => LightAppearance::Breathing(breath),
    }
}

fn saturate_u16(v: u32) -> (r: u16)
    ensures
        r == saturate16(v),
{
    if v > u16::MAX as u32 {
        u16::MAX
    } else {
        v as u16
    }
}

pub fn light_snapshot(state: LightState) -> (l: LightSnapshot)
    ensures
        l == snapshot_of(state),
{
    match state {
        LightState::Off => LightSnapshot { mode: MODE_OFF, brightness: 0, hue: 0, breath: BreathSnapshot::default() },
        LightState::Solid { color, brightness } => LightSnapshot {
            mode: MODE_SOLID,
            brightness,
            hue: rgb_hue(color),
            breath: BreathSnapshot::default(),
        },
        LightState::Breath(b) => LightSnapshot {
            mode: MODE_BREATH,
            brightness: b.max_brightness,
            hue: if b.group_len > 0 { b.group[0] } else { b.hue },
            breath: BreathSnapshot {
                period_ms: saturate_u16(b.period_ms),
                hue_period_ms: saturate_u16(b.hue_period_ms),
                hue_span: b.hue_span,
                group_len: b.group_len,
                min_brightness: b.min_brightness,
                max_brightness: b.max_brightness,
                saturation: b.saturation,
            },
        },
    }
}

fn live_position(p: Option<LivePoint>) -> (r: Option<(u16, u16)>)
    ensures
        r == position_of(p),
{
    match p {
        Some(l) => Some((l.x, l.y)),
        None => None,
    }
}

/// The diagnostics a state folds into for the renderer's digit rows.
pub fn light_diagnostics(state: &DeviceState) -> (d: Diagnostics)
    ensures
        d == diagnostics_of(*state),
{
    let d = Diagnostics {
        touch: TouchDiagnostics {
            taps: state.tap_count,
            presses: state.press_count,
            double_taps: state.double_tap_count,
            long_presses: state.long_press_count,
            ghosts: state.ghost_count,
            points: [live_position(state.touch_points[0]), live_position(state.touch_points[1])],
            live_dir: state.live_dir,
            two_finger_runs: state.two_finger_runs,
            frames: state.touch_frames,
            finger: state.finger,
            held_ms: state.touch_held_ms,
            swipes: state.swipe_count,
            last_swipe_dir: match state.last_swipe {
                Some((d, _)) => d.code(),
                None => 0,
            },
            last_swipe_dist: match state.last_swipe {
                Some((_, dist)) => dist,
                None => 0,
            },
            last_gesture_origin: state.last_gesture_origin,
            last_gesture_end: state.last_gesture_end,
            chip_gesture_id: state.chip_gesture_id,
        },
        lights: [light_snapshot(state.lights[0]), light_snapshot(state.lights[1])],
    };
    assert(d.touch.points =~= diagnostics_of(*state).touch.points);
    assert(d.lights =~= diagnostics_of(*state).lights);
    d
}

/// How a renderer wants to be driven after an appearance sync.
#[derive(Debug, Clone, Copy, PartialEq, Eq, Structural)]
pub enum Activity {
    /// Appearance settled; no callbacks until the next state change.
    Idle,
    /// The render layer must step this renderer every tick to animate.
    TimeDriven,
}

/// Pluggable binding between one device and the render layer: the
/// controller decides what to show, the renderer answers how.
pub trait Renderer {
    /// The slots this renderer subscribes to. Each implementor says what
    /// they are; one that does not leaves them unspecified.
    open spec fn subscription(&self) -> Seq<Slot> {
        vstd::pervasive::arbitrary()
    }

    /// Every appearance handed to this renderer so far, each with the clock
    /// it came with. Each implementor keeps its own account; one that does
    /// not leaves it unspecified.
    open spec fn received(&self) -> Seq<(SlotAppearance, u32)> {
        vstd::pervasive::arbitrary()
    }

    /// The device slots this renderer subscribes to, in diff order.
    fn slots(&self) -> (r: &[Slot])
        ensures
            r@ == self.subscription(),
    ;

    /// A slot's appearance changed; apply it to the device.
    fn on_appearance(&mut self, appearance: SlotAppearance, now_ms: u32) -> (a: Activity)
        ensures
            final(self).subscription() == old(self).subscription(),
            final(self).received() == old(self).received().push((appearance, now_ms)),
    ;

    /// One animation frame, called only while the renderer reported
    /// [`Activity::TimeDriven`].
    fn step(&mut self, now_ms: u32) -> (a: Activity)
        ensures
            final(self).subscription() == old(self).subscription(),
            final(self).received() == old(self).received(),
    ;
}

/// What one changed appearance hands a renderer: itself, if the renderer
/// subscribes to its slot.
pub open spec fn delivery(subscription: Seq<Slot>, a: SlotAppearance, now_ms: u32) -> Seq<(SlotAppearance, u32)> {
    if subscription.contains(slot_of_appearance(a)) {
        seq![(a, now_ms)]
    } else {
        Seq::empty()
    }
}

/// What a run of changed appearances hands a renderer, in order.
pub open spec fn deliveries(subscription: Seq<Slot>, changed: Seq<SlotAppearance>, now_ms: u32) -> Seq<(SlotAppearance, u32)>
    decreases changed.len(),
{
    if changed.len() == 0 {
        Seq::empty()
    } else {
        deliveries(subscription, changed.drop_last(), now_ms) + delivery(subscription, changed.last(), now_ms)
    }
}

// ---------------------------------------------------------------------------
// State comparison, field by field.

fn same_pair(a: Option<(u16, u16)>, b: Option<(u16, u16)>) -> (r: bool)
    ensures
        r == (a == b),
{
    match (a, b) {
        (Some((x1, y1)), Some((x2, y2))) => x1 == x2 && y1 == y2,
        (None, None) => true,
        _ => false,
    }
}

fn same_live(a: Option<LivePoint>, b: Option<LivePoint>) -> (r: bool)
    ensures
        r == (a == b),
{
    match (a, b) {
        (Some(p), Some(q)) => p == q,
        (None, None) => true,
        _ => false,
    }
}

fn same_breath(a: &Breath, b: &Breath) -> (r: bool)
    ensures
        r == (*a == *b),
{
    let mut group_same = true;
    let mut i: usize = 0;
    while i < GROUP_CAPACITY
        invariant
            0 <= i <= GROUP_CAPACITY,
            group_same == (forall|k: int| 0 <= k < i ==> a.group[k] == b.group[k]),
        decreases GROUP_CAPACITY - i,
    {
        if a.group[i] != b.group[i] {
            group_same = false;
        }
        i += 1;
    }
    if group_same {
        assert(a.group =~= b.group);
    }
    group_same && a.period_ms == b.period_ms && a.hue_period_ms == b.hue_period_ms && a.hue_span
        == b.hue_span && a.min_brightness == b.min_brightness && a.max_brightness
        == b.max_brightness && a.saturation == b.saturation && a.hue == b.hue && a.group_len
        == b.group_len
}

/// Whether two light states are the same.
pub fn same_light(a: &LightState, b: &LightState) -> (r: bool)
    ensures
        r == (*a == *b),
{
    match (a, b) {
        (LightState::Off, LightState::Off) => true,
        (LightState::Solid { color: c1, brightness: b1 }, LightState::Solid { color: c2, brightness: b2 }) => {
            *c1 == *c2 && *b1 == *b2
        },
        (LightState::Breath(x), LightState::Breath(y)) => same_breath(x, y),
        _ => false,
    }
}

fn same_touch(a: &Option<TouchEvent>, b: &Option<TouchEvent>) -> (r: bool)
    ensures
        r == (*a == *b),
{
    match (a, b) {
        (Some(x), Some(y)) => {
            let mut same = true;
            let mut i: usize = 0;
            while i < MAX_TOUCH_POINTS
                invariant
                    0 <= i <= MAX_TOUCH_POINTS,
                    same == (forall|k: int| 0 <= k < i ==> x.points[k] == y.points[k]),
                decreases MAX_TOUCH_POINTS - i,
            {
                if x.points[i] != y.points[i] {
                    same = false;
                }
                i += 1;
            }
            if same {
                assert(x.points =~= y.points);
            }
            same && x.len == y.len && x.contacts == y.contacts
        },
        (None, None) => true,
        _ => false,
    }
}

fn same_i32s(a: &[i32; 3], b: &[i32; 3]) -> (r: bool)
    ensures
        r == (*a == *b),
{
    let r = a[0] == b[0] && a[1] == b[1] && a[2] == b[2];
    if r {
        assert(*a =~= *b);
    }
    r
}

fn same_i16s(a: &[i16; 3], b: &[i16; 3]) -> (r: bool)
    ensures
        r == (*a == *b),
{
    let r = a[0] == b[0] && a[1] == b[1] && a[2] == b[2];
    if r {
        assert(*a =~= *b);
    }
    r
}

fn same_motion(a: &Option<MotionSample>, b: &Option<MotionSample>) -> (r: bool)
    ensures
        r == (*a == *b),
{
    match (a, b) {
        (Some(x), Some(y)) => {
            same_i16s(&x.raw_accel, &y.raw_accel) && same_i16s(&x.raw_gyro, &y.raw_gyro) && same_i32s(
                &x.accel_mg,
                &y.accel_mg,
            ) && same_i32s(&x.gyro_dps_x10, &y.gyro_dps_x10) && same_i16s(&x.tilt_deg_x10, &y.tilt_deg_x10)
                && x.status == y.status && x.tap_residual_mg == y.tap_residual_mg
                && x.gravity_deviation_mg == y.gravity_deviation_mg && x.shake_residual_mg
                == y.shake_residual_mg && x.valid == y.valid
        },
        (None, None) => true,
        _ => false,
    }
}

fn same_swipe(a: Option<(crate::drivers::input::SwipeDirection, u16)>, b: Option<(crate::drivers::input::SwipeDirection, u16)>) -> (r: bool)
    ensures
        r == (a == b),
{
    match (a, b) {
        (Some((d1, n1)), Some((d2, n2))) => d1 == d2 && n1 == n2,
        (None, None) => true,
        _ => false,
    }
}

/// Whether two device states are the same, field by field.
pub fn same_state(a: &DeviceState, b: &DeviceState) -> (r: bool)
    ensures
        r == (*a == *b),
{
    let lights = same_light(&a.lights[0], &b.lights[0]) && same_light(&a.lights[1], &b.lights[1]);
    if lights {
        assert(a.lights =~= b.lights);
    }
    let points = same_live(a.touch_points[0], b.touch_points[0]) && same_live(a.touch_points[1], b.touch_points[1]);
    if points {
        assert(a.touch_points =~= b.touch_points);
    }
    let dirs = a.live_dir[0] == b.live_dir[0] && a.live_dir[1] == b.live_dir[1];
    if dirs {
        assert(a.live_dir =~= b.live_dir);
    }
    let fingers = a.finger[0] == b.finger[0] && a.finger[1] == b.finger[1];
    if fingers {
        assert(a.finger =~= b.finger);
    }
    lights && points && dirs && fingers && same_touch(&a.touch, &b.touch) && a.two_finger_runs
        == b.two_finger_runs && a.touch_frames == b.touch_frames && a.touch_held_ms
        == b.touch_held_ms && a.tap_count == b.tap_count && a.press_count == b.press_count
        && a.double_tap_count == b.double_tap_count && a.long_press_count == b.long_press_count
        && a.ghost_count == b.ghost_count && a.swipe_count == b.swipe_count && same_swipe(
        a.last_swipe,
        b.last_swipe,
    ) && same_pair(a.last_gesture_origin, b.last_gesture_origin) && same_pair(
        a.last_gesture_end,
        b.last_gesture_end,
    ) && a.chip_gesture_id == b.chip_gesture_id && same_motion(&a.motion, &b.motion)
        && a.motion_counts == b.motion_counts
}

// ---------------------------------------------------------------------------
// The controller.

/// Whether surface `i` moved since `last` (every surface moved before the
/// first sync).
pub open spec fn light_moved(last: Option<DeviceState>, s: DeviceState, i: int) -> bool {
    match last {
        None => true,
        Some(l) => l.lights[i] != s.lights[i],
    }
}

/// The appearances of the first `n` surfaces that moved, in wiring order.
pub open spec fn moved_lights(last: Option<DeviceState>, s: DeviceState, n: int) -> Seq<SlotAppearance>
    decreases n,
{
    if n <= 0 {
        Seq::empty()
    } else {
        let before = moved_lights(last, s, n - 1);
        if light_moved(last, s, n - 1) {
            before.push(SlotAppearance::Light { instance: (n - 1) as u8, appearance: appearance_of(s.lights[n - 1]) })
        } else {
            before
        }
    }
}

/// What one sync reports: nothing for an unchanged state; otherwise the
/// diagnostics first, then every light that moved (all of them on the first
/// sync) in wiring order.
pub open spec fn emitted(last: Option<DeviceState>, s: DeviceState) -> Seq<SlotAppearance> {
    if last == Some(s) {
        Seq::empty()
    } else {
        seq![SlotAppearance::Diagnostics(diagnostics_of(s))] + moved_lights(last, s, MAX_LIGHTS as int)
    }
}

/// The appearance a slot last synced to.
pub open spec fn current_of(last: Option<DeviceState>, slot: Slot) -> Option<SlotAppearance> {
    match last {
        None => None,
        Some(s) => Some(
            match slot {
                Slot::Light(instance) => SlotAppearance::Light {
                    instance,
                    appearance: appearance_of(s.lights[clamped_instance(instance as int)]),
                },
                Slot::Diagnostics => SlotAppearance::Diagnostics(diagnostics_of(s)),
            },
        ),
    }
}

/// Central judge of the device surface: diffs successive states and reports
/// only the appearances that changed.
pub struct RenderController {
    last: Option<DeviceState>,
}

impl RenderController {
    pub closed spec fn last_synced(&self) -> Option<DeviceState> {
        self.last
    }

    pub fn new() -> (c: Self)
        ensures
            c.last_synced() is None,
    {
        RenderController { last: None }
    }

    /// Diff `state` against the last snapshot, appending every changed
    /// slot's appearance to `out` (see [`emitted`]); returns whether anything
    /// changed.
    pub fn reconcile(&mut self, state: &DeviceState, out: &mut Vec<SlotAppearance>) -> (changed: bool)
        ensures
            changed == (old(self).last_synced() != Some(*state)),
            final(out)@ == old(out)@ + emitted(old(self).last_synced(), *state),
            final(self).last_synced() == if changed {
                Some(*state)
            } else {
                old(self).last_synced()
            },
    {
        let changed = match &self.last {
            None => true,
            Some(last) => !same_state(last, state),
        };
        if changed {
            let ghost start = out@;
            out.push(SlotAppearance::Diagnostics(light_diagnostics(state)));
            let mut instance: usize = 0;
            while instance < MAX_LIGHTS
                invariant
                    0 <= instance <= MAX_LIGHTS,
                    self.last == old(self).last,
                    out@ == start + seq![SlotAppearance::Diagnostics(diagnostics_of(*state))] + moved_lights(
                        old(self).last,
                        *state,
                        instance as int,
                    ),
                decreases MAX_LIGHTS - instance,
            {
                let moved = match &self.last {
                    None => true,
                    Some(last) => !same_light(&last.lights[instance], &state.lights[instance]),
                };
                if moved {
                    out.push(SlotAppearance::Light { instance: instance as u8, appearance: light_appearance(state.lights[instance]) });
                }
                instance += 1;
            }
            self.last = Some(*state);
        }
        changed
    }

    /// Last synced appearance for `slot`, or `None` before the first sync.
    pub fn current(&self, slot: Slot) -> (r: Option<SlotAppearance>)
        ensures
            r == current_of(self.last_synced(), slot),
    {
        match &self.last {
            None => None,
            Some(state) => Some(
                match slot {
                    Slot::Light(instance) => SlotAppearance::Light {
                        instance,
                        appearance: light_appearance(
                            state.lights[if (instance as usize) < MAX_LIGHTS { instance as usize } else { MAX_LIGHTS - 1 }],
                        ),
                    },
                    Slot::Diagnostics => SlotAppearance::Diagnostics(light_diagnostics(state)),
                },
            ),
        }
    }
}

impl Default for RenderController {
    fn default() -> (c: Self)
        ensures
            c.last_synced() is None,
    {
        RenderController::new()
    }
}

/// Syncing the state just synced reports nothing; the first sync reports
/// the diagnostics and every light.
pub proof fn lemma_resync_is_silent(s: DeviceState)
    ensures
        emitted(Some(s), s) == Seq::<SlotAppearance>::empty(),
        emitted(None, s).len() == 1 + MAX_LIGHTS,
        emitted(None, s)[0] == SlotAppearance::Diagnostics(diagnostics_of(s)),
{
    reveal_with_fuel(moved_lights, 3);
}

} // verus!
