//! The input pipeline's vocabulary and its small state machines: button
//! debounce, the double-click aggregator, the id-stable touch tracker and the
//! polled source schedule. The touch gesture classifier lives in
//! [`crate::drivers::gestures`].
use vstd::prelude::*;

use crate::drivers::math::{floor_sqrt, isqrt_u64, is_floor_sqrt};
use crate::drivers::motion::MotionBatch;
pub use crate::drivers::gestures::TouchGestures;

verus! {

/// Active-low contract for a physical button: returns `true` when pressed.
pub trait Button {
    fn is_pressed(&self) -> bool;
}

/// A button gesture after debounce.
#[derive(Debug, Clone, Copy, PartialEq, Eq, Structural)]
pub enum ButtonEvent {
    Click,
    DoubleClick,
    LongPress,
}

/// A discrete touch gesture folded from the raw contact stream by the
/// gesture classifier. Contact gestures carry a stable per-finger `id` plus
/// the gesture origin and the measured hold; two-point gestures add the
/// trailing `end_x`/`end_y`; a swipe adds its octant and Euclidean travel;
/// `GhostTouch` is a coordinate-less input-path anomaly pulse.
#[derive(Debug, Clone, Copy, PartialEq, Eq, Structural)]
pub enum GestureEvent {
    Press { id: u8, x: u16, y: u16 },
    GhostTouch,
    Tap { id: u8, x: u16, y: u16, held_ms: u16 },
    DoubleTap { id: u8, x: u16, y: u16, end_x: u16, end_y: u16, held_ms: u16 },
    Swipe {
        id: u8,
        direction: SwipeDirection,
        x: u16,
        y: u16,
        end_x: u16,
        end_y: u16,
        held_ms: u16,
        distance_px: u16,
    },
    LongPress { id: u8, x: u16, y: u16, held_ms: u16 },
}

/// Dominant travel direction of a resolved swipe: the slide vector's octant,
/// with a ±22.5° diagonal band (`|dx|*12 >= |dy|*5` on the smaller over the
/// larger component) read as diagonal.
#[derive(Debug, Clone, Copy, PartialEq, Eq, Structural)]
pub enum SwipeDirection {
    Up,
    Down,
    Left,
    Right,
    UpLeft,
    UpRight,
    DownLeft,
    DownRight,
}

/// Numpad digit of a direction for the on-panel readout (8/2/4/6 the axes,
/// 7/9/1/3 the diagonals).
pub open spec fn direction_code(d: SwipeDirection) -> u8 {
    match d {
        SwipeDirection::Up => 8,
        SwipeDirection::Down => 2,
        SwipeDirection::Left => 4,
        SwipeDirection::Right => 6,
        SwipeDirection::UpLeft => 7,
        SwipeDirection::UpRight => 9,
        SwipeDirection::DownLeft => 1,
        SwipeDirection::DownRight => 3,
    }
}

impl SwipeDirection {
    pub fn code(self) -> (c: u8)
        ensures
            c == direction_code(self),
    {
        match self {
            SwipeDirection::Up => 8,
            SwipeDirection::Down => 2,
            SwipeDirection::Left => 4,
            SwipeDirection::Right => 6,
            SwipeDirection::UpLeft => 7,
            SwipeDirection::UpRight => 9,
            SwipeDirection::DownLeft => 1,
            SwipeDirection::DownRight => 3,
        }
    }
}

#[derive(Debug, Clone, Copy, PartialEq, Eq)]
pub enum InputEvent {
    Button(ButtonEvent),
    Touch(TouchEvent),
    Gesture(GestureEvent),
    /// Raw `GESTURE_ID` register a touch controller surfaced, pulsed on
    /// change; purely diagnostic.
    ChipGesture(u8),
    /// One motion poll: the data plane and the semantics it raised.
    Motion(MotionBatch),
}

pub const BUTTON_SCAN_MS: u64 = 10;

/// Shared base tick of the app's input loop.
pub const INPUT_BASE_MS: u64 = 5;

/// Minimum hold before a lift may read as a long press.
pub const LONG_PRESS_MS: u64 = 600;

/// How long a first click stays pending while waiting for a second one.
pub const DOUBLE_CLICK_WINDOW_MS: u64 = 300;

/// Minimum press travel ever observed (px, Euclidean) that reads as a swipe.
pub const SWIPE_MIN_DISTANCE_PX: u16 = 60;

/// Smallest dominant-direction travel (px) that re-reads as live movement.
pub const MOVE_DEADBAND_PX: u16 = 2;

/// Farthest a second contact may land from a down finger and still read as
/// its self-cap phantom.
pub const PHANTOM_RADIUS_PX: u16 = 60;

/// Touch poll cadence, a whole multiple of [`INPUT_BASE_MS`].
pub const TOUCH_SCAN_MS: u64 = 10;

/// How recently a finger's down edge may be for a nearby second contact to
/// count as its phantom echo: one touch-scan cadence.
pub const PHANTOM_WINDOW_MS: u64 = TOUCH_SCAN_MS;

/// Farthest a second short lift may sit from the chambered first tap and
/// still pair into a double tap.
pub const PENDING_PAIR_PX: u16 = 100;

/// How many fingers the touch path tracks side by side.
pub const MAX_TRACKED_POINTS: usize = 2;

/// Gesture kind a finger most recently resolved; `0` = none yet.
pub const FINGER_NONE: u8 = 0;
pub const FINGER_TAP: u8 = 1;
pub const FINGER_DOUBLE_TAP: u8 = 2;
pub const FINGER_LONG_PRESS: u8 = 3;
pub const FINGER_SWIPE: u8 = 4;

/// The gesture one tracked finger last resolved: `kind` the `FINGER_*` code,
/// `dir` the swipe's direction code (`0` otherwise), `value` the measured
/// hold (ms) or swipe travel (px).
#[derive(Debug, Clone, Copy, PartialEq, Eq, Default, Structural)]
pub struct FingerLast {
    pub kind: u8,
    pub dir: u8,
    pub value: u16,
}

impl FingerLast {
    pub fn empty() -> (f: Self)
        ensures
            f == (FingerLast { kind: FINGER_NONE, dir: 0, value: 0 }),
    {
        FingerLast { kind: FINGER_NONE, dir: 0, value: 0 }
    }
}

/// Consecutive identical samples needed to confirm a state change.
pub const DEBOUNCE_SAMPLES: u32 = 3;

/// Maximum simultaneous contacts a touch event can carry.
pub const MAX_TOUCH_POINTS: usize = 16;

/// Consecutive absent samples that confirm a contact release.
pub const RELEASE_CONFIRM_SAMPLES: u8 = 3;

/// Per-contact lifecycle: appeared / tracked / left.
#[derive(Debug, Clone, Copy, PartialEq, Eq, Structural)]
pub enum TouchStatus {
    Down,
    Contact,
    Release,
}

/// A tracked contact; `id` is stable per finger from `Down` to `Release`.
#[derive(Debug, Clone, Copy, PartialEq, Eq, Structural)]
pub struct TouchPoint {
    pub id: u8,
    pub x: u16,
    pub y: u16,
    pub status: TouchStatus,
}

/// Snapshot of every contact in one sample; the first `len` points count.
#[derive(Debug, Clone, Copy, PartialEq, Eq)]
pub struct TouchEvent {
    pub points: [TouchPoint; MAX_TOUCH_POINTS],
    pub len: u8,
    /// Raw controller contact count; can transiently exceed `len`.
    pub contacts: u8,
}

impl TouchEvent {
    /// The contacts the event carries, in order.
    pub open spec fn contacts_seq(&self) -> Seq<TouchPoint> {
        self.points@.take(self.len as int)
    }

    /// An event never claims more points than it can hold.
    pub open spec fn wf(&self) -> bool {
        self.len as int <= MAX_TOUCH_POINTS as int
    }
}

/// Maps raw touch-panel coordinates into framebuffer space.
#[derive(Debug, Clone, Copy, PartialEq, Eq, Structural)]
pub struct TouchMap {
    pub swap_xy: bool,
    pub mirror_x: bool,
    pub mirror_y: bool,
}

/// A raw point in framebuffer space: swapped first, then mirrored per axis.
pub open spec fn mapped_point(m: TouchMap, point: (u16, u16), width: u16, height: u16) -> (int, int) {
    let (x, y) = if m.swap_xy { (point.1, point.0) } else { (point.0, point.1) };
    let x2 = if m.mirror_x { width - 1 - x } else { x as int };
    let y2 = if m.mirror_y { height - 1 - y } else { y as int };
    (x2, y2)
}

/// The mapping stays inside a `width` x `height` frame.
pub open spec fn fits_frame(m: TouchMap, point: (u16, u16), width: u16, height: u16) -> bool {
    let (x, y) = if m.swap_xy { (point.1, point.0) } else { (point.0, point.1) };
    (m.mirror_x ==> x < width) && (m.mirror_y ==> y < height)
}

impl TouchMap {
    /// Raw coordinates are already in framebuffer space.
    pub fn identity() -> (m: Self)
        ensures
            m == (TouchMap { swap_xy: false, mirror_x: false, mirror_y: false }),
    {
        TouchMap { swap_xy: false, mirror_x: false, mirror_y: false }
    }

    pub fn map(&self, point: (u16, u16), width: u16, height: u16) -> (r: (u16, u16))
        requires
            fits_frame(*self, point, width, height),
        ensures
            (r.0 as int, r.1 as int) == mapped_point(*self, point, width, height),
    {
        let (x, y) = if self.swap_xy { (point.1, point.0) } else { (point.0, point.1) };
        let x = if self.mirror_x { width - 1 - x } else { x };
        let y = if self.mirror_y { height - 1 - y } else { y };
        (x, y)
    }
}

/// `XH[7:6]` event bits of an FT5x06-family touch point: `0b00` (down edge)
/// and `0b10` (held contact) carry live coordinates.
pub open spec fn point_event_is_live(xh: u8) -> bool {
    xh / 64 == 0 || xh / 64 == 2
}

pub fn ft6x06_point_is_live(xh: u8) -> (r: bool)
    ensures
        r == point_event_is_live(xh),
{
    let bits = (xh >> 6) & 0x03;
    assert(bits == xh / 64) by (bit_vector)
        requires
            bits == (xh >> 6) & 0x03,
    ;
    bits == 0 || bits == 2
}

pub open spec fn abs(v: int) -> int {
    if v < 0 {
        -v
    } else {
        v
    }
}

/// The octant of a displacement: diagonal inside the ±22.5° band, else the
/// nearest straight axis (screen space: positive `dy` is down).
pub open spec fn dominant_direction(dx: int, dy: int) -> SwipeDirection {
    let ax = abs(dx);
    let ay = abs(dy);
    let (max, min) = if ax >= ay { (ax, ay) } else { (ay, ax) };
    if min * 12 >= max * 5 {
        if dy > 0 && dx > 0 {
            SwipeDirection::DownRight
        } else if dy > 0 {
            SwipeDirection::DownLeft
        } else if dx > 0 {
            SwipeDirection::UpRight
        } else {
            SwipeDirection::UpLeft
        }
    } else if ax >= ay {
        if dx > 0 {
            SwipeDirection::Right
        } else {
            SwipeDirection::Left
        }
    } else if dy > 0 {
        SwipeDirection::Down
    } else {
        SwipeDirection::Up
    }
}

pub(crate) fn dominant_axis(dx: i32, dy: i32) -> (d: SwipeDirection)
    requires
        -65535 <= dx <= 65535,
        -65535 <= dy <= 65535,
    ensures
        d == dominant_direction(dx as int, dy as int),
{
    let ax: u32 = if dx < 0 { (-dx) as u32 } else { dx as u32 };
    let ay: u32 = if dy < 0 { (-dy) as u32 } else { dy as u32 };
    let (max, min) = if ax >= ay { (ax, ay) } else { (ay, ax) };
    if min * 12 >= max * 5 {
        if dy > 0 && dx > 0 {
            SwipeDirection::DownRight
        } else if dy > 0 {
            SwipeDirection::DownLeft
        } else if dx > 0 {
            SwipeDirection::UpRight
        } else {
            SwipeDirection::UpLeft
        }
    } else if ax >= ay {
        if dx > 0 {
            SwipeDirection::Right
        } else {
            SwipeDirection::Left
        }
    } else if dy > 0 {
        SwipeDirection::Down
    } else {
        SwipeDirection::Up
    }
}

/// Direction of a frame-to-frame move: `None` while the larger component
/// stays under the deadband, else the swipe octant.
pub open spec fn move_direction(from_x: u16, from_y: u16, to_x: u16, to_y: u16, deadband_px: u16) -> Option<SwipeDirection> {
    let dx = to_x - from_x;
    let dy = to_y - from_y;
    let drift = if abs(dx) >= abs(dy) { abs(dx) } else { abs(dy) };
    if drift >= deadband_px {
        Some(dominant_direction(dx, dy))
    } else {
        None
    }
}

/// Direction of the latest frame-to-frame move while a finger is down, for
/// the live per-finger rows; the same answer as a resolved swipe.
pub fn direction_between(from_x: u16, from_y: u16, to_x: u16, to_y: u16, deadband_px: u16) -> (r: Option<SwipeDirection>)
    ensures
        r == move_direction(from_x, from_y, to_x, to_y, deadband_px),
{
    let dx = to_x as i32 - from_x as i32;
    let dy = to_y as i32 - from_y as i32;
    let ax: i32 = if dx < 0 { -dx } else { dx };
    let ay: i32 = if dy < 0 { -dy } else { dy };
    let drift = if ax >= ay { ax } else { ay };
    if drift >= deadband_px as i32 {
        Some(dominant_axis(dx, dy))
    } else {
        None
    }
}

/// Squared Euclidean distance between two positions.
pub open spec fn sq_distance(x0: u16, y0: u16, x1: u16, y1: u16) -> int {
    (x0 - x1) * (x0 - x1) + (y0 - y1) * (y0 - y1)
}

/// Euclidean travel between two positions, floored and saturated to `u16`.
pub open spec fn travel(x0: u16, y0: u16, x1: u16, y1: u16) -> u16 {
    let r = floor_sqrt(sq_distance(x0, y0, x1, y1));
    if r > u16::MAX {
        u16::MAX
    } else {
        r as u16
    }
}

proof fn lemma_sq_distance_bounds(x0: u16, y0: u16, x1: u16, y1: u16)
    ensures
        0 <= sq_distance(x0, y0, x1, y1) <= 2 * 65535 * 65535,
{
    let dx = x0 - x1;
    let dy = y0 - y1;
    assert(0 <= dx * dx <= 65535 * 65535) by (nonlinear_arith)
        requires
            -65535 <= dx <= 65535,
    ;
    assert(0 <= dy * dy <= 65535 * 65535) by (nonlinear_arith)
        requires
            -65535 <= dy <= 65535,
    ;
}

/// Squared distance, computed wide enough for any pair of `u16` positions.
pub(crate) fn sq_dist(x0: u16, y0: u16, x1: u16, y1: u16) -> (r: u64)
    ensures
        r as int == sq_distance(x0, y0, x1, y1),
{
    let dx: u64 = if x0 >= x1 { (x0 - x1) as u64 } else { (x1 - x0) as u64 };
    let dy: u64 = if y0 >= y1 { (y0 - y1) as u64 } else { (y1 - y0) as u64 };
    assert(dx * dx <= 65535 * 65535) by (nonlinear_arith)
        requires
            dx <= 65535,
    ;
    assert(dy * dy <= 65535 * 65535) by (nonlinear_arith)
        requires
            dy <= 65535,
    ;
    assert(dx * dx == (x0 - x1) * (x0 - x1)) by (nonlinear_arith)
        requires
            dx == abs(x0 - x1),
    ;
    assert(dy * dy == (y0 - y1) * (y0 - y1)) by (nonlinear_arith)
        requires
            dy == abs(y0 - y1),
    ;
    dx * dx + dy * dy
}

/// Euclidean travel in pixels, saturated rather than wrapped.
pub(crate) fn travel_px(from_x: u16, from_y: u16, to_x: u16, to_y: u16) -> (r: u16)
    ensures
        r == travel(from_x, from_y, to_x, to_y),
{
    let sq = sq_dist(from_x, from_y, to_x, to_y);
    let root = isqrt_u64(sq);
    if root > u16::MAX as u64 {
        u16::MAX
    } else {
        root as u16
    }
}

/// A displacement read as a swipe: `None` under [`SWIPE_MIN_DISTANCE_PX`],
/// else the dominant octant and the travel in pixels.
pub open spec fn swipe_of(from_x: u16, from_y: u16, to_x: u16, to_y: u16) -> Option<(SwipeDirection, u16)> {
    let distance = travel(from_x, from_y, to_x, to_y);
    if distance < SWIPE_MIN_DISTANCE_PX {
        None
    } else {
        Some((dominant_direction(to_x - from_x, to_y - from_y), distance))
    }
}

/// The direction pointing the other way.
pub open spec fn opposite(d: SwipeDirection) -> SwipeDirection {
    match d {
        SwipeDirection::Up => SwipeDirection::Down,
        SwipeDirection::Down => SwipeDirection::Up,
        SwipeDirection::Left => SwipeDirection::Right,
        SwipeDirection::Right => SwipeDirection::Left,
        SwipeDirection::UpLeft => SwipeDirection::DownRight,
        SwipeDirection::DownRight => SwipeDirection::UpLeft,
        SwipeDirection::UpRight => SwipeDirection::DownLeft,
        SwipeDirection::DownLeft => SwipeDirection::UpRight,
    }
}

/// Swiping back over the same two points reads as the opposite swipe over
/// the same distance (or as no swipe, when the first is none), and the live
/// frame-to-frame direction between the two points, whatever its deadband,
/// agrees with the resolved swipe.
pub proof fn lemma_swipe_reverses(from_x: u16, from_y: u16, to_x: u16, to_y: u16, deadband_px: u16)
    ensures
        match swipe_of(from_x, from_y, to_x, to_y) {
            None => swipe_of(to_x, to_y, from_x, from_y) is None,
            Some((d, t)) => swipe_of(to_x, to_y, from_x, from_y) == Some((opposite(d), t)),
        },
        swipe_of(from_x, from_y, to_x, to_y) matches Some((d, _)) ==> (move_direction(
            from_x,
            from_y,
            to_x,
            to_y,
            deadband_px,
        ) matches Some(live) ==> live == d),
{
    let dx = to_x - from_x;
    let dy = to_y - from_y;
    assert(sq_distance(from_x, from_y, to_x, to_y) == sq_distance(to_x, to_y, from_x, from_y)) by (nonlinear_arith);
    assert(travel(from_x, from_y, to_x, to_y) == travel(to_x, to_y, from_x, from_y));
    if dx == 0 && dy == 0 {
        assert(sq_distance(from_x, from_y, to_x, to_y) == 0) by (nonlinear_arith)
            requires
                to_x - from_x == 0,
                to_y - from_y == 0,
        ;
        lemma_floor_sqrt_zero();
    }
}

proof fn lemma_floor_sqrt_zero()
    ensures
        floor_sqrt(0) == 0,
{
    assert(is_floor_sqrt(0, 0));
    crate::drivers::math::lemma_floor_sqrt_unique(0, 0);
}

/// Classifies a displacement into a swipe; pure, so the classifier and the
/// on-panel distance digit share one answer.
pub fn swipe_classify(from_x: u16, from_y: u16, to_x: u16, to_y: u16) -> (r: Option<(SwipeDirection, u16)>)
    ensures
        r == swipe_of(from_x, from_y, to_x, to_y),
{
    let dx = to_x as i32 - from_x as i32;
    let dy = to_y as i32 - from_y as i32;
    let distance_px = travel_px(from_x, from_y, to_x, to_y);
    if distance_px < SWIPE_MIN_DISTANCE_PX {
        return None;
    }
    Some((dominant_axis(dx, dy), distance_px))
}

/// Whether two lift positions belong to the same physical tap cadence.
pub open spec fn close_pair(x0: u16, y0: u16, x1: u16, y1: u16) -> bool {
    sq_distance(x0, y0, x1, y1) <= PENDING_PAIR_PX * PENDING_PAIR_PX
}

pub(crate) fn pair_close(x0: u16, y0: u16, x1: u16, y1: u16) -> (r: bool)
    ensures
        r == close_pair(x0, y0, x1, y1),
{
    sq_dist(x0, y0, x1, y1) <= PENDING_PAIR_PX as u64 * PENDING_PAIR_PX as u64
}

/// Floor of the square root of a `u32`, integer-only.
pub fn isqrt_u32(n: u32) -> (r: u32)
    ensures
        is_floor_sqrt(r as int, n as int),
{
    crate::drivers::math::isqrt_u32(n)
}

/// A saturating difference of two clock readings.
pub open spec fn elapsed(now: u64, then: u64) -> u64 {
    if now >= then {
        (now - then) as u64
    } else {
        0
    }
}

/// Poll-based input source, polled at a fixed cadence by the input task.
pub trait InputSource {
    /// Whether `r` is an answer this source, as it stands, may give to a
    /// poll at `now_ms` (a source that samples hardware may give several).
    /// An implementor that does not say leaves it unspecified.
    open spec fn may_yield(&self, now_ms: u64, r: Option<InputEvent>) -> bool {
        vstd::pervasive::arbitrary()
    }

    fn poll(&mut self, now_ms: u64) -> (r: Option<InputEvent>)
        ensures
            old(self).may_yield(now_ms, r),
    ;
}

/// Combines raw input events into higher-level gestures.
pub trait EventAggregator {
    /// What the aggregator, as it stands, forwards for `event` at `now_ms`.
    /// An implementor that does not say leaves it unspecified.
    open spec fn fed(&self, event: InputEvent, now_ms: u64) -> Option<InputEvent> {
        vstd::pervasive::arbitrary()
    }

    /// What the aggregator, as it stands, releases on a quiet tick at
    /// `now_ms`. An implementor that does not say leaves it unspecified.
    open spec fn ticked(&self, now_ms: u64) -> Option<InputEvent> {
        vstd::pervasive::arbitrary()
    }

    fn feed(&mut self, event: InputEvent, now_ms: u64) -> (r: Option<InputEvent>)
        ensures
            r == old(self).fed(event, now_ms),
    ;

    /// Advance the aggregator's clock without a raw sample, so time-held
    /// gestures can expire while the source stays quiet.
    fn tick(&mut self, now_ms: u64) -> (r: Option<InputEvent>)
        ensures
            r == old(self).ticked(now_ms),
    ;
}

/// Identity aggregator: passes every event through unchanged.
pub struct PassThrough;

impl PassThrough {
    pub fn feed(&mut self, event: InputEvent, now_ms: u64) -> (r: Option<InputEvent>)
        ensures
            r == Some(event),
    {
        Some(event)
    }

    pub fn tick(&mut self, now_ms: u64) -> (r: Option<InputEvent>)
        ensures
            r is None,
    {
        None
    }
}

impl EventAggregator for PassThrough {
    open spec fn fed(&self, event: InputEvent, now_ms: u64) -> Option<InputEvent> {
        Some(event)
    }

    open spec fn ticked(&self, now_ms: u64) -> Option<InputEvent> {
        None
    }

    fn feed(&mut self, event: InputEvent, now_ms: u64) -> (r: Option<InputEvent>)
        ensures
            r == Some(event),
    {
        PassThrough::feed(self, event, now_ms)
    }

    fn tick(&mut self, now_ms: u64) -> (r: Option<InputEvent>)
        ensures
            r is None,
    {
        PassThrough::tick(self, now_ms)
    }
}

/// Coalesces two clicks within [`DOUBLE_CLICK_WINDOW_MS`] into a single
/// `DoubleClick`, holding a lone first click until the window closes. A
/// long press or any non-click event flushes the pending click.
pub struct DoubleClickAggregator {
    first_click_at_ms: Option<u64>,
}

/// The aggregator's answer to one event, from the pending first click:
/// the new pending click and what it forwards.
pub open spec fn click_feed(pending: Option<u64>, event: InputEvent, now: u64) -> (Option<u64>, Option<InputEvent>) {
    match event {
        InputEvent::Button(ButtonEvent::Click) => match pending {
            None => (Some(now), None),
            Some(first) => if elapsed(now, first) <= DOUBLE_CLICK_WINDOW_MS {
                (None, Some(InputEvent::Button(ButtonEvent::DoubleClick)))
            } else {
                (Some(now), Some(InputEvent::Button(ButtonEvent::Click)))
            },
        },
        _ => (None, Some(event)),
    }
}

/// The aggregator's answer to a quiet tick: a pending click past its window
/// releases as a lone click.
pub open spec fn click_tick(pending: Option<u64>, now: u64) -> (Option<u64>, Option<InputEvent>) {
    match pending {
        Some(first) => if elapsed(now, first) > DOUBLE_CLICK_WINDOW_MS {
            (None, Some(InputEvent::Button(ButtonEvent::Click)))
        } else {
            (pending, None)
        },
        None => (None, None),
    }
}

impl DoubleClickAggregator {
    /// When the buffered first click happened, if one is pending.
    pub closed spec fn pending(&self) -> Option<u64> {
        self.first_click_at_ms
    }

    pub fn new() -> (a: Self)
        ensures
            a.pending() is None,
    {
        DoubleClickAggregator { first_click_at_ms: None }
    }

    pub fn feed(&mut self, event: InputEvent, now_ms: u64) -> (r: Option<InputEvent>)
        ensures
            (final(self).pending(), r) == click_feed(old(self).pending(), event, now_ms),
    {
        match event {
            InputEvent::Button(ButtonEvent::Click) => match self.first_click_at_ms {
                None => {
                    self.first_click_at_ms = Some(now_ms);
                    None
                },
                Some(first) => {
                    if now_ms.saturating_sub(first) <= DOUBLE_CLICK_WINDOW_MS {
                        self.first_click_at_ms = None;
                        Some(InputEvent::Button(ButtonEvent::DoubleClick))
                    } else {
                        self.first_click_at_ms = Some(now_ms);
                        Some(InputEvent::Button(ButtonEvent::Click))
                    }
                },
            },
            _ => {
                self.first_click_at_ms = None;
                Some(event)
            },
        }
    }

    pub fn tick(&mut self, now_ms: u64) -> (r: Option<InputEvent>)
        ensures
            (final(self).pending(), r) == click_tick(old(self).pending(), now_ms),
    {
        match self.first_click_at_ms {
            Some(first) => {
                if now_ms.saturating_sub(first) > DOUBLE_CLICK_WINDOW_MS {
                    self.first_click_at_ms = None;
                    Some(InputEvent::Button(ButtonEvent::Click))
                } else {
                    None
                }
            },
            None => None,
        }
    }
}

impl Default for DoubleClickAggregator {
    fn default() -> (a: Self)
        ensures
            a.pending() is None,
    {
        DoubleClickAggregator::new()
    }
}

impl EventAggregator for DoubleClickAggregator {
    open spec fn fed(&self, event: InputEvent, now_ms: u64) -> Option<InputEvent> {
        click_feed(self.pending(), event, now_ms).1
    }

    open spec fn ticked(&self, now_ms: u64) -> Option<InputEvent> {
        click_tick(self.pending(), now_ms).1
    }

    fn feed(&mut self, event: InputEvent, now_ms: u64) -> (r: Option<InputEvent>)
        ensures
            (final(self).pending(), r) == click_feed(old(self).pending(), event, now_ms),
    {
        DoubleClickAggregator::feed(self, event, now_ms)
    }

    fn tick(&mut self, now_ms: u64) -> (r: Option<InputEvent>)
        ensures
            (final(self).pending(), r) == click_tick(old(self).pending(), now_ms),
    {
        DoubleClickAggregator::tick(self, now_ms)
    }
}

/// A polled input source scheduled at its own cadence, paired with the
/// aggregator that turns its raw samples into events. `source_id` is the
/// wiring-order identity the board assigned.
pub struct PollEntry {
    source_id: u8,
    source: Box<dyn InputSource>,
    aggregator: Box<dyn EventAggregator>,
    cadence_ms: u64,
    next_at_ms: u64,
}

/// The schedule after catching up past `now`: the first point of the grid
/// `next + k * cadence` beyond `now` (unchanged when already beyond).
pub open spec fn advanced_past(next: u64, cadence: u64, now: u64) -> int {
    if next > now {
        next as int
    } else {
        next + ((now - next) / cadence as int + 1) * cadence
    }
}

proof fn lemma_grid_quotient(base: int, k: int, c: int, now: int)
    requires
        c > 0,
        k >= 1,
        base <= now,
        base + (k - 1) * c <= now,
        now < base + k * c,
    ensures
        (now - base) / c == k - 1,
{
    assert((now - base) / c == k - 1) by (nonlinear_arith)
        requires
            c > 0,
            k >= 1,
            (k - 1) * c <= now - base,
            now - base < k * c,
    ;
}

impl PollEntry {
    pub closed spec fn source_id_view(&self) -> u8 {
        self.source_id
    }

    pub closed spec fn cadence_view(&self) -> u64 {
        self.cadence_ms
    }

    pub closed spec fn next_at_view(&self) -> u64 {
        self.next_at_ms
    }

    /// Whether the wired source, as it stands, may answer a poll at
    /// `now_ms` with `r`.
    pub closed spec fn source_may_yield(&self, now_ms: u64, r: Option<InputEvent>) -> bool {
        self.source.may_yield(now_ms, r)
    }

    /// What the wired aggregator, as it stands, forwards for `event`.
    pub closed spec fn aggregator_fed(&self, event: InputEvent, now_ms: u64) -> Option<InputEvent> {
        self.aggregator.fed(event, now_ms)
    }

    /// What the wired aggregator, as it stands, releases on a quiet tick.
    pub closed spec fn aggregator_ticked(&self, now_ms: u64) -> Option<InputEvent> {
        self.aggregator.ticked(now_ms)
    }

    /// The first sample lands on the cadence grid, so debounce windows stay
    /// uniform straight from boot.
    pub fn new(source_id: u8, source: Box<dyn InputSource>, aggregator: Box<dyn EventAggregator>, cadence_ms: u64) -> (e: Self)
        ensures
            e.source_id_view() == source_id,
            e.cadence_view() == cadence_ms,
            e.next_at_view() == cadence_ms,
    {
        PollEntry { source_id, source, aggregator, cadence_ms, next_at_ms: cadence_ms }
    }

    /// The wiring-order identity the board assigned this input.
    pub fn source_id(&self) -> (r: u8)
        ensures
            r == self.source_id_view(),
    {
        self.source_id
    }

    /// The source's cadence.
    pub fn cadence_ms(&self) -> (r: u64)
        ensures
            r == self.cadence_view(),
    {
        self.cadence_ms
    }

    /// When this source is next due on the shared grid.
    pub fn next_at_ms(&self) -> (r: u64)
        ensures
            r == self.next_at_view(),
    {
        self.next_at_ms
    }

    /// Poll the source, then fold the raw sample (or the tick that stands in
    /// for it) through the aggregator.
    pub fn poll(&mut self, now_ms: u64) -> (r: Option<InputEvent>)
        ensures
            final(self).source_id_view() == old(self).source_id_view(),
            final(self).cadence_view() == old(self).cadence_view(),
            final(self).next_at_view() == old(self).next_at_view(),
            exists|polled: Option<InputEvent>|
                #[trigger] old(self).source_may_yield(now_ms, polled) && r == match polled {
                    Some(event) => old(self).aggregator_fed(event, now_ms),
                    None => old(self).aggregator_ticked(now_ms),
                },
    {
        let polled = self.source.poll(now_ms);
        let r = match polled {
            Some(event) => self.aggregator.feed(event, now_ms),
            None => self.aggregator.tick(now_ms),
        };
        assert(old(self).source_may_yield(now_ms, polled));
        r
    }

    /// Advance the schedule past `now_ms`, one cadence at a time with no
    /// catch-up burst, keeping the source on its own cadence grid.
    pub fn advance_past(&mut self, now_ms: u64)
        requires
            old(self).cadence_view() > 0 || old(self).next_at_view() > now_ms,
            now_ms as int + old(self).cadence_view() <= u64::MAX,
        ensures
            final(self).source_id_view() == old(self).source_id_view(),
            final(self).cadence_view() == old(self).cadence_view(),
            final(self).next_at_view() as int == advanced_past(
                old(self).next_at_view(),
                old(self).cadence_view(),
                now_ms,
            ),
            final(self).next_at_view() > now_ms,
    {
        let ghost start = self.next_at_ms;
        let ghost mut k: int = 0;
        while self.next_at_ms <= now_ms
            invariant
                self.source_id == old(self).source_id,
                self.cadence_ms == old(self).cadence_ms,
                start == old(self).next_at_ms,
                now_ms as int + self.cadence_ms <= u64::MAX,
                self.cadence_ms > 0 || self.next_at_ms > now_ms,
                k >= 0,
                self.next_at_ms == start + k * self.cadence_ms,
                k > 0 ==> start + (k - 1) * self.cadence_ms <= now_ms,
            decreases now_ms as int + self.cadence_ms as int - self.next_at_ms as int,
        {
            proof {
                assert(start + (k + 1) * self.cadence_ms == start + k * self.cadence_ms + self.cadence_ms) by (nonlinear_arith);
                k = k + 1;
            }
            self.next_at_ms = self.next_at_ms + self.cadence_ms;
        }
        proof {
            if k > 0 {
                lemma_grid_quotient(start as int, k, self.cadence_ms as int, now_ms as int);
            }
        }
    }
}


/// A button's debounce state: the confirmed level, when the current press
/// was confirmed, and how many consecutive samples disagreed with the level.
#[derive(Debug, Clone, Copy, PartialEq, Eq)]
pub struct ButtonScan {
    pub pressed: bool,
    pub held_since_ms: u64,
    pub same_count: u32,
}

/// One raw sample through the debounce: a sample agreeing with the confirmed
/// level resets the run; [`DEBOUNCE_SAMPLES`] disagreeing samples in a row
/// confirm the new level. A confirmed press starts the hold clock; a
/// confirmed release reports a click, or a long press once the hold reached
/// [`LONG_PRESS_MS`].
pub open spec fn scan_step(s: ButtonScan, raw: bool, now: u64) -> (ButtonScan, Option<ButtonEvent>) {
    if raw == s.pressed {
        (ButtonScan { same_count: 0, ..s }, None)
    } else if s.same_count + 1 < DEBOUNCE_SAMPLES {
        (ButtonScan { same_count: (s.same_count + 1) as u32, ..s }, None)
    } else if raw {
        (ButtonScan { pressed: true, held_since_ms: now, same_count: 0 }, None)
    } else {
        (
            ButtonScan { pressed: false, same_count: 0, ..s },
            Some(
                if elapsed(now, s.held_since_ms) >= LONG_PRESS_MS {
                    ButtonEvent::LongPress
                } else {
                    ButtonEvent::Click
                },
            ),
        )
    }
}

/// Debounced button scanner, distinguishing clicks from long presses by
/// hold duration.
pub struct ButtonScanner<B: Button> {
    button: B,
    pressed: bool,
    held_since_ms: u64,
    same_count: u32,
}

impl<B: Button> ButtonScanner<B> {
    #[verifier::type_invariant]
    spec fn run_bounded(self) -> bool {
        self.same_count < DEBOUNCE_SAMPLES
    }

    pub closed spec fn scan(&self) -> ButtonScan {
        ButtonScan {
            pressed: self.pressed,
            held_since_ms: self.held_since_ms,
            same_count: self.same_count,
        }
    }

    pub fn new(button: B) -> (s: Self)
        ensures
            s.scan() == (ButtonScan { pressed: false, held_since_ms: 0, same_count: 0 }),
    {
        ButtonScanner { button, pressed: false, held_since_ms: 0, same_count: 0 }
    }

    /// The debounced level the scanner currently believes.
    pub fn pressed(&self) -> (r: bool)
        ensures
            r == self.scan().pressed,
    {
        self.pressed
    }

    /// Feed one raw level through the debounce.
    pub fn read_level(&mut self, raw: bool, now_ms: u64) -> (r: Option<ButtonEvent>)
        ensures
            (final(self).scan(), r) == scan_step(old(self).scan(), raw, now_ms),
    {
        proof {
            use_type_invariant(&*self);
        }
        if raw == self.pressed {
            self.same_count = 0;
            return None;
        }
        let next = self.same_count + 1;
        if next < DEBOUNCE_SAMPLES {
            self.same_count = next;
            return None;
        }
        self.same_count = 0;
        self.pressed = raw;
        if raw {
            self.held_since_ms = now_ms;
            None
        } else {
            let held = now_ms.saturating_sub(self.held_since_ms);
            Some(
                if held >= LONG_PRESS_MS {
                    ButtonEvent::LongPress
                } else {
                    ButtonEvent::Click
                },
            )
        }
    }

    /// Sample the button and feed the level through the debounce.
    pub fn read(&mut self, now_ms: u64) -> (r: Option<ButtonEvent>)
        ensures
            exists|raw: bool| (final(self).scan(), r) == scan_step(old(self).scan(), raw, now_ms),
    {
        let raw = self.button.is_pressed();
        self.read_level(raw, now_ms)
    }

    /// The input-source view of [`Self::read`]: a debounced gesture as an
    /// input event.
    pub fn poll(&mut self, now_ms: u64) -> (r: Option<InputEvent>)
        ensures
            exists|raw: bool|
                #![auto]
                final(self).scan() == scan_step(old(self).scan(), raw, now_ms).0 && r == match scan_step(
                    old(self).scan(),
                    raw,
                    now_ms,
                ).1 {
                    Some(e) => Some(InputEvent::Button(e)),
                    None => None,
                },
    {
        match self.read(now_ms) {
            Some(e) => Some(InputEvent::Button(e)),
            None => None,
        }
    }
}

/// A debounced gesture as an input event.
pub open spec fn button_input(e: Option<ButtonEvent>) -> Option<InputEvent> {
    match e {
        Some(e) => Some(InputEvent::Button(e)),
        None => None,
    }
}

impl<B: Button> InputSource for ButtonScanner<B> {
    open spec fn may_yield(&self, now_ms: u64, r: Option<InputEvent>) -> bool {
        exists|raw: bool| r == button_input(#[trigger] scan_step(self.scan(), raw, now_ms).1)
    }

    fn poll(&mut self, now_ms: u64) -> (r: Option<InputEvent>)
        ensures
            exists|raw: bool|
                #![auto]
                final(self).scan() == scan_step(old(self).scan(), raw, now_ms).0 && r == match scan_step(
                    old(self).scan(),
                    raw,
                    now_ms,
                ).1 {
                    Some(e) => Some(InputEvent::Button(e)),
                    None => None,
                },
    {
        ButtonScanner::poll(self, now_ms)
    }
}

/// One tracker slot of [`TouchContinuity`].
#[derive(Debug, Clone, Copy, PartialEq, Eq)]
pub struct TrackerPoint {
    pub id: u8,
    pub x: u16,
    pub y: u16,
    pub active: bool,
}

/// Farthest a raw point may move between samples to keep its id.
pub const MAX_REACH_PX: u16 = 80;

/// Whether tracker `p` may claim a raw point at `(x, y)`.
pub open spec fn claimable(p: TrackerPoint, taken: bool, x: u16, y: u16) -> bool {
    p.active && !taken && sq_distance(p.x, p.y, x, y) <= MAX_REACH_PX * MAX_REACH_PX
}

/// The tracker among the first `n` that claims `(x, y)`: the closest
/// claimable one, the lowest index among equals.
pub open spec fn nearest_upto(pts: Seq<TrackerPoint>, taken: Seq<bool>, x: u16, y: u16, n: int) -> Option<int>
    decreases n,
{
    if n <= 0 {
        None
    } else {
        let best = nearest_upto(pts, taken, x, y, n - 1);
        let i = n - 1;
        if claimable(pts[i], taken[i], x, y) && (best is None || sq_distance(pts[i].x, pts[i].y, x, y)
            < sq_distance(pts[best.unwrap()].x, pts[best.unwrap()].y, x, y)) {
            Some(i)
        } else {
            best
        }
    }
}

pub open spec fn id_taken(pts: Seq<TrackerPoint>, id: u8) -> bool {
    exists|i: int| 0 <= i < pts.len() && pts[i].active && pts[i].id == id
}

pub open spec fn wrap_inc(v: u8) -> u8 {
    if v == 255 {
        0
    } else {
        (v + 1) as u8
    }
}

/// The id a new contact receives and the counter after it: the first id
/// from `next` on (wrapping) that no active tracker holds.
pub open spec fn alloc_from(pts: Seq<TrackerPoint>, next: u8, fuel: nat) -> (u8, u8)
    decreases fuel,
{
    if fuel == 0 {
        (next, next)
    } else if !id_taken(pts, next) {
        (next, wrap_inc(next))
    } else {
        alloc_from(pts, wrap_inc(next), (fuel - 1) as nat)
    }
}

/// Index of the first inactive tracker, if any.
pub open spec fn first_inactive(pts: Seq<TrackerPoint>) -> Option<int>
    decreases pts.len(),
{
    if pts.len() == 0 {
        None
    } else {
        match first_inactive(pts.drop_last()) {
            Some(i) => Some(i),
            None => if !pts.last().active {
                Some(pts.len() - 1)
            } else {
                None
            },
        }
    }
}

/// The tracker's working state while one raw sample is folded in.
pub struct TrackPass {
    pub pts: Seq<TrackerPoint>,
    pub next_id: u8,
    pub taken: Seq<bool>,
    pub out: Seq<TouchPoint>,
    pub changed: bool,
    pub stopped: bool,
}

/// One raw point folded into the trackers: the nearest claimable tracker
/// follows it as a `Contact`; otherwise a fresh id lands in the first free
/// tracker as a `Down`, and with no free tracker the rest of the sample is
/// dropped.
pub open spec fn track_point(st: TrackPass, p: (u16, u16)) -> TrackPass {
    if st.stopped {
        st
    } else {
        match nearest_upto(st.pts, st.taken, p.0, p.1, MAX_TOUCH_POINTS as int) {
            Some(i) => {
                let t = st.pts[i];
                TrackPass {
                    pts: st.pts.update(i, TrackerPoint { x: p.0, y: p.1, ..t }),
                    taken: st.taken.update(i, true),
                    changed: st.changed || t.x != p.0 || t.y != p.1,
                    out: st.out.push(TouchPoint { id: t.id, x: p.0, y: p.1, status: TouchStatus::Contact }),
                    ..st
                }
            },
            None => {
                let (id, next) = alloc_from(st.pts, st.next_id, 256);
                match first_inactive(st.pts) {
                    None => TrackPass { next_id: next, stopped: true, ..st },
                    Some(slot) => TrackPass {
                        pts: st.pts.update(slot, TrackerPoint { id, x: p.0, y: p.1, active: true }),
                        next_id: next,
                        taken: st.taken.update(slot, true),
                        changed: true,
                        out: st.out.push(TouchPoint { id, x: p.0, y: p.1, status: TouchStatus::Down }),
                        stopped: false,
                    },
                }
            },
        }
    }
}

/// The first `n` raw points folded in order.
pub open spec fn track_points(st: TrackPass, raw: Seq<(u16, u16)>, n: int) -> TrackPass
    decreases n,
{
    if n <= 0 {
        st
    } else {
        track_point(track_points(st, raw, n - 1), raw[n - 1])
    }
}

pub open spec fn has_missing(pts: Seq<TrackerPoint>, taken: Seq<bool>) -> bool {
    exists|i: int| 0 <= i < pts.len() && pts[i].active && !taken[i]
}

/// Confirmed releases over trackers `0..n`: every active tracker the sample
/// missed goes inactive and, while the event has room, reports a `Release`
/// at its last position.
pub open spec fn release_upto(st: TrackPass, n: int) -> TrackPass
    decreases n,
{
    if n <= 0 {
        st
    } else {
        let s = release_upto(st, n - 1);
        let i = n - 1;
        let t = s.pts[i];
        if t.active && !s.taken[i] {
            TrackPass {
                pts: s.pts.update(i, TrackerPoint { active: false, ..t }),
                out: if s.out.len() < MAX_TOUCH_POINTS {
                    s.out.push(TouchPoint { id: t.id, x: t.x, y: t.y, status: TouchStatus::Release })
                } else {
                    s.out
                },
                changed: true,
                ..s
            }
        } else {
            s
        }
    }
}

/// The tracker state a raw sample leads to, before the event is packaged:
/// the fold of every raw point (at most [`MAX_TOUCH_POINTS`]), the absence
/// run, and the releases a full run confirms.
pub open spec fn track_sample(pts: Seq<TrackerPoint>, next_id: u8, absent: u8, raw: Seq<(u16, u16)>) -> (TrackPass, u8) {
    let start = TrackPass {
        pts,
        next_id,
        taken: Seq::new(MAX_TOUCH_POINTS as nat, |i: int| false),
        out: Seq::empty(),
        changed: false,
        stopped: false,
    };
    let n = if raw.len() < MAX_TOUCH_POINTS { raw.len() as int } else { MAX_TOUCH_POINTS as int };
    let folded = track_points(start, raw, n);
    let run = if has_missing(folded.pts, folded.taken) {
        if absent == 255 { 255u8 } else { (absent + 1) as u8 }
    } else {
        0u8
    };
    if run >= RELEASE_CONFIRM_SAMPLES {
        (release_upto(folded, MAX_TOUCH_POINTS as int), 0u8)
    } else {
        (folded, run)
    }
}

pub open spec fn blank_point() -> TouchPoint {
    TouchPoint { id: 0, x: 0, y: 0, status: TouchStatus::Down }
}

/// An event carrying `out` in order, the remaining slots blank.
pub open spec fn packaged(out: Seq<TouchPoint>, contacts: u8) -> Seq<TouchPoint> {
    out + Seq::new((MAX_TOUCH_POINTS - out.len()) as nat, |i: int| blank_point())
}

/// Tracks raw per-sample contact lists into id-stable touch events by
/// nearest-neighbor matching; a release confirms only after
/// [`RELEASE_CONFIRM_SAMPLES`] consecutive absent samples, and unchanged
/// samples emit nothing.
#[derive(Debug, Clone, Copy)]
pub struct TouchContinuity {
    points: [TrackerPoint; MAX_TOUCH_POINTS],
    next_id: u8,
    absent: u8,
}

impl TouchContinuity {
    pub closed spec fn trackers(&self) -> Seq<TrackerPoint> {
        self.points@
    }

    pub closed spec fn next_id_view(&self) -> u8 {
        self.next_id
    }

    pub closed spec fn absent_view(&self) -> u8 {
        self.absent
    }

    pub fn new() -> (c: Self)
        ensures
            c.trackers() == Seq::new(
                MAX_TOUCH_POINTS as nat,
                |i: int| TrackerPoint { id: 0, x: 0, y: 0, active: false },
            ),
            c.next_id_view() == 0,
            c.absent_view() == 0,
    {
        let c = TouchContinuity {
            points: [TrackerPoint { id: 0, x: 0, y: 0, active: false }; MAX_TOUCH_POINTS],
            next_id: 0,
            absent: 0,
        };
        assert(c.points@ =~= Seq::new(
            MAX_TOUCH_POINTS as nat,
            |i: int| TrackerPoint { id: 0, x: 0, y: 0, active: false },
        ));
        c
    }

    fn nearest_active(&self, x: u16, y: u16, consumed: &[bool; MAX_TOUCH_POINTS]) -> (r: Option<usize>)
        ensures
            match r {
                Some(i) => nearest_upto(self.points@, consumed@, x, y, MAX_TOUCH_POINTS as int) == Some(i as int),
                None => nearest_upto(self.points@, consumed@, x, y, MAX_TOUCH_POINTS as int) is None,
            },
            r matches Some(i) ==> i < MAX_TOUCH_POINTS,
    {
        let reach_sq: u64 = MAX_REACH_PX as u64 * MAX_REACH_PX as u64;
        let mut best: Option<usize> = None;
        let mut best_sq: u64 = 0;
        let mut i: usize = 0;
        while i < MAX_TOUCH_POINTS
            invariant
                0 <= i <= MAX_TOUCH_POINTS,
                reach_sq == MAX_REACH_PX * MAX_REACH_PX,
                match best {
                    Some(b) => nearest_upto(self.points@, consumed@, x, y, i as int) == Some(b as int)
                        && b < i && best_sq == sq_distance(self.points@[b as int].x, self.points@[b as int].y, x, y),
                    None => nearest_upto(self.points@, consumed@, x, y, i as int) is None,
                },
            decreases MAX_TOUCH_POINTS - i,
        {
            let tracker = self.points[i];
            if tracker.active && !consumed[i] {
                let dist_sq = sq_dist(tracker.x, tracker.y, x, y);
                let closer = match best {
                    None => true,
                    Some(_) => dist_sq < best_sq,
                };
                if dist_sq <= reach_sq && closer {
                    best_sq = dist_sq;
                    best = Some(i);
                }
            }
            i += 1;
        }
        best
    }

    fn id_in_use(&self, id: u8) -> (r: bool)
        ensures
            r == id_taken(self.points@, id),
    {
        let mut i: usize = 0;
        while i < MAX_TOUCH_POINTS
            invariant
                0 <= i <= MAX_TOUCH_POINTS,
                forall|j: int| 0 <= j < i ==> !(self.points@[j].active && self.points@[j].id == id),
            decreases MAX_TOUCH_POINTS - i,
        {
            if self.points[i].active && self.points[i].id == id {
                return true;
            }
            i += 1;
        }
        false
    }

    fn allocate_id(&mut self) -> (id: u8)
        ensures
            (id, final(self).next_id) == alloc_from(old(self).points@, old(self).next_id, 256),
            final(self).points == old(self).points,
            final(self).absent == old(self).absent,
    {
        let start = self.next_id;
        let mut k: u32 = 0;
        while k < 256
            invariant
                0 <= k <= 256,
                start == old(self).next_id,
                self.points == old(self).points,
                self.absent == old(self).absent,
                alloc_from(self.points@, start, 256) == alloc_from(self.points@, self.next_id, (256 - k) as nat),
            decreases 256 - k,
        {
            let id = self.next_id;
            self.next_id = self.next_id.wrapping_add(1);
            assert(self.next_id == wrap_inc(id));
            if !self.id_in_use(id) {
                return id;
            }
            k += 1;
        }
        self.next_id
    }

    fn first_free(&self) -> (r: Option<usize>)
        ensures
            match r {
                Some(i) => first_inactive(self.points@) == Some(i as int) && i < MAX_TOUCH_POINTS,
                None => first_inactive(self.points@) is None,
            },
    {
        let mut i: usize = 0;
        while i < MAX_TOUCH_POINTS
            invariant
                0 <= i <= MAX_TOUCH_POINTS,
                first_inactive(self.points@.take(i as int)) is None,
            decreases MAX_TOUCH_POINTS - i,
        {
            assert(self.points@.take(i + 1).drop_last() =~= self.points@.take(i as int));
            if !self.points[i].active {
                proof {
                    lemma_first_inactive_prefix(self.points@, i as int + 1);
                }
                return Some(i);
            }
            i += 1;
        }
        assert(self.points@.take(MAX_TOUCH_POINTS as int) =~= self.points@);
        None
    }

    /// Feed one raw sample (framebuffer space) plus the controller's own
    /// contact count; emits only when the contact set or a tracked position
    /// changed.
    pub fn update(&mut self, raw: &[(u16, u16)], contacts: u8) -> (r: Option<TouchEvent>)
        ensures
            ({
                let (pass, absent) = track_sample(old(self).trackers(), old(self).next_id_view(), old(self).absent_view(), raw@);
                &&& final(self).trackers() == pass.pts
                &&& final(self).next_id_view() == pass.next_id
                &&& final(self).absent_view() == absent
                &&& match r {
                    Some(e) => pass.changed && e.len as int == pass.out.len() && e.contacts == contacts
                        && e.points@ == packaged(pass.out, contacts),
                    None => !pass.changed,
                }
            }),
    {
        let blank = TouchPoint { id: 0, x: 0, y: 0, status: TouchStatus::Down };
        let mut event = TouchEvent { points: [blank; MAX_TOUCH_POINTS], len: 0, contacts };
        let mut consumed = [false; MAX_TOUCH_POINTS];
        let mut changed = false;
        let mut stopped = false;
        let n: usize = if raw.len() < MAX_TOUCH_POINTS { raw.len() } else { MAX_TOUCH_POINTS };
        let ghost start = TrackPass {
            pts: self.points@,
            next_id: self.next_id,
            taken: Seq::new(MAX_TOUCH_POINTS as nat, |i: int| false),
            out: Seq::empty(),
            changed: false,
            stopped: false,
        };
        assert(consumed@ =~= start.taken);
        assert(event.points@ =~= packaged(Seq::empty(), contacts));
        let mut j: usize = 0;
        while j < n
            invariant
                0 <= j <= n,
                n <= MAX_TOUCH_POINTS,
                n == if raw@.len() < MAX_TOUCH_POINTS { raw@.len() as int } else { MAX_TOUCH_POINTS as int },
                self.absent == old(self).absent,
                event.contacts == contacts,
                event.len as int <= j,
                ({
                    let st = track_points(start, raw@, j as int);
                    &&& st.pts == self.points@
                    &&& st.next_id == self.next_id
                    &&& st.taken == consumed@
                    &&& st.out.len() == event.len as int
                    &&& event.points@ == packaged(st.out, contacts)
                    &&& st.changed == changed
                    &&& st.stopped == stopped
                }),
            decreases n - j,
        {
            if !stopped {
                let (rx, ry) = raw[j];
                let ghost before = track_points(start, raw@, j as int);
                match self.nearest_active(rx, ry, &consumed) {
                    Some(i) => {
                        let tracker = self.points[i];
                        changed = changed || tracker.x != rx || tracker.y != ry;
                        self.points[i] = TrackerPoint { id: tracker.id, x: rx, y: ry, active: tracker.active };
                        consumed[i] = true;
                        let point = TouchPoint { id: tracker.id, x: rx, y: ry, status: TouchStatus::Contact };
                        let len = event.len as usize;
                        event.points[len] = point;
                        event.len = event.len + 1;
                        proof {
                            assert(self.points@ =~= before.pts.update(i as int, TrackerPoint { x: rx, y: ry, ..before.pts[i as int] }));
                            lemma_packaged_push(before.out, point, contacts);
                        }
                    },
                    None => {
                        let id = self.allocate_id();
                        match self.first_free() {
                            None => {
                                stopped = true;
                            },
                            Some(slot) => {
                                self.points[slot] = TrackerPoint { id, x: rx, y: ry, active: true };
                                consumed[slot] = true;
                                changed = true;
                                let point = TouchPoint { id, x: rx, y: ry, status: TouchStatus::Down };
                                let len = event.len as usize;
                                event.points[len] = point;
                                event.len = event.len + 1;
                                proof {
                                    lemma_packaged_push(before.out, point, contacts);
                                }
                            },
                        }
                    },
                }
            }
            j += 1;
        }
        let ghost folded = track_points(start, raw@, n as int);
        let mut pending = false;
        let mut i: usize = 0;
        while i < MAX_TOUCH_POINTS
            invariant
                0 <= i <= MAX_TOUCH_POINTS,
                folded.pts == self.points@,
                folded.taken == consumed@,
                pending == exists|k: int| 0 <= k < i && self.points@[k].active && !consumed@[k],
            decreases MAX_TOUCH_POINTS - i,
        {
            if self.points[i].active && !consumed[i] {
                pending = true;
            }
            i += 1;
        }
        if pending {
            self.absent = self.absent.saturating_add(1);
        } else {
            self.absent = 0;
        }
        assert(pending == has_missing(folded.pts, folded.taken));
        if self.absent >= RELEASE_CONFIRM_SAMPLES {
            self.absent = 0;
            proof {
                lemma_release_frame(folded, 0);
            }
            let mut i: usize = 0;
            while i < MAX_TOUCH_POINTS
                invariant
                    0 <= i <= MAX_TOUCH_POINTS,
                    event.contacts == contacts,
                    self.absent == 0,
                    self.next_id == folded.next_id,
                    ({
                        let st = release_upto(folded, i as int);
                        &&& st.pts == self.points@
                        &&& st.taken == consumed@
                        &&& st.out.len() == event.len as int
                        &&& event.points@ == packaged(st.out, contacts)
                        &&& st.changed == changed
                    }),
                    folded.pts.len() == MAX_TOUCH_POINTS,
                    folded.taken.len() == MAX_TOUCH_POINTS,
                    folded.out.len() <= MAX_TOUCH_POINTS,
                decreases MAX_TOUCH_POINTS - i,
            {
                let ghost before = release_upto(folded, i as int);
                proof {
                    lemma_release_frame(folded, i as int);
                }
                let tracker = self.points[i];
                if tracker.active && !consumed[i] {
                    if (event.len as usize) < MAX_TOUCH_POINTS {
                        let point = TouchPoint { id: tracker.id, x: tracker.x, y: tracker.y, status: TouchStatus::Release };
                        let len = event.len as usize;
                        event.points[len] = point;
                        event.len = event.len + 1;
                        proof {
                            lemma_packaged_push(before.out, point, contacts);
                        }
                    }
                    self.points[i] = TrackerPoint { id: tracker.id, x: tracker.x, y: tracker.y, active: false };
                    changed = true;
                }
                proof {
                    lemma_release_frame(folded, i as int + 1);
                }
                i += 1;
            }
            proof {
                lemma_release_frame(folded, MAX_TOUCH_POINTS as int);
            }
        }
        if changed {
            Some(event)
        } else {
            None
        }
    }
}

proof fn lemma_first_inactive_prefix(pts: Seq<TrackerPoint>, i: int)
    requires
        0 <= i <= pts.len(),
        first_inactive(pts.take(i)) is Some,
    ensures
        first_inactive(pts) == first_inactive(pts.take(i)),
    decreases pts.len() - i,
{
    if i < pts.len() {
        assert(pts.take(i + 1).drop_last() =~= pts.take(i));
        lemma_first_inactive_prefix(pts, i + 1);
    } else {
        assert(pts.take(i) =~= pts);
    }
}

proof fn lemma_release_frame(st: TrackPass, n: int)
    requires
        n <= st.pts.len(),
    ensures
        release_upto(st, n).next_id == st.next_id,
        release_upto(st, n).taken == st.taken,
        release_upto(st, n).pts.len() == st.pts.len(),
    decreases n,
{
    if n > 0 {
        lemma_release_frame(st, n - 1);
    }
}

proof fn lemma_packaged_push(out: Seq<TouchPoint>, p: TouchPoint, contacts: u8)
    requires
        out.len() < MAX_TOUCH_POINTS,
    ensures
        packaged(out, contacts).update(out.len() as int, p) == packaged(out.push(p), contacts),
{
    assert(packaged(out, contacts).update(out.len() as int, p) =~= packaged(out.push(p), contacts));
}

impl Default for TouchContinuity {
    fn default() -> (c: Self)
        ensures
            c.next_id_view() == 0,
            c.absent_view() == 0,
    {
        TouchContinuity::new()
    }
}

} // verus!
