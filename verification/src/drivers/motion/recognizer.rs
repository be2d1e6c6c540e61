//! Core-side motion semantics derived from the data plane: tilt with
//! hysteresis, posture, shake by counted crossings, lift/place by a dwell on
//! the magnitude band, and a knock detector with a double-tap window. Every
//! threshold lives here rather than in a driver, so swapping the sensor
//! cannot change what the business layer means.
use vstd::prelude::*;

use super::event::{
    lemma_extended_concat, lemma_extended_fresh, slots_extended, slots_pushed, absent_slots,
    MotionEvent, MotionEvents, TiltDir, MOTION_EVENT_CAPACITY,
};
use super::{MotionSample, MOTION_SCAN_MS};
use crate::drivers::input::elapsed;
use crate::drivers::math::{floor_sqrt, is_floor_sqrt, isqrt_u32, lemma_floor_sqrt_unique};

verus! {

/// Tilt hysteresis: crossing the outer angle declares a tilt, and only
/// falling back inside the inner one retracts it.
pub const TILT_ENTER_DEG_X10: i16 = 150;
pub const TILT_EXIT_DEG_X10: i16 = 100;

/// Shake threshold on the vector residual against the short gravity
/// estimate, in mG.
pub const SHAKE_ON_MG: i32 = 2_000;

/// Crossings that confirm a shake; one impulse is a knock.
pub const SHAKE_PEAKS: u8 = 3;

/// How far apart those crossings may be and still read as one gesture.
pub const SHAKE_WINDOW_MS: u16 = 800;

/// A reported shake holds off re-triggering this long.
pub const SHAKE_REFRACTORY_MS: u16 = 300;

/// Corner of the shake estimate.
pub const SHAKE_GRAVITY_TAU_MS: i32 = 70;

/// One g in mG, the shell the still test measures against.
pub const GRAVITY_MG: i32 = 1_000;

/// Still band: the measured magnitude within this far of one g.
pub const STILL_GRAVITY_DEV_MG: i32 = 150;

/// Dwell before a stillness transition is believed.
pub const DWELL_MS: u16 = 150;

/// Tap peak bar, in mG² on the squared gravity-removed magnitude.
pub const TAP_PEAK_MAG_MG2: i64 = 62_500;

/// The level a peak must fall under and a tap's tail must stay under.
pub const TAP_QUIET_MG2: i64 = 22_500;

/// The peak has to decay under the quiet bar inside this budget.
pub const TAP_PEAK_WINDOW_MS: u16 = 80;

/// A resolved peak stays quiet this long before it counts as a knock.
pub const TAP_QUIET_WINDOW_MS: u16 = 80;

/// How far apart knocks may land and still roll into one gesture.
pub const TAP_DOUBLE_WINDOW_MS: u16 = 500;

/// How much of the double-tap window a gesture may spend above the quiet
/// bar before it reads as an ongoing turn.
pub const TAP_SETTLED_MOTION_MS: u16 = 200;

/// Corner of the tap baseline.
pub const TAP_BASELINE_TAU_MS: i32 = 300;

/// Below this on both in-plane axes the device is flat and has no posture.
pub const POSTURE_FLAT_MG: i32 = 300;

/// Fixed-point denominator of the gravity blend.
pub const GRAVITY_SCALE: i32 = 1_024;

// ---------------------------------------------------------------------------
// Pure measures.

pub open spec fn abs(v: int) -> int {
    if v < 0 {
        -v
    } else {
        v
    }
}

/// Division truncating toward zero, as the integer pipeline computes it.
pub open spec fn div_trunc(a: int, d: int) -> int {
    if a >= 0 {
        a / d
    } else {
        -((-a) / d)
    }
}

/// The share of the way toward the reading an estimate moves, in
/// 1/[`GRAVITY_SCALE`]ths: the elapsed time over the time constant.
pub open spec fn blend_factor(elapsed_ms: u16, tau_ms: i32) -> int {
    (elapsed_ms * GRAVITY_SCALE) / (tau_ms + elapsed_ms)
}

pub open spec fn blended_axis(estimate: i32, measured: i32, blend: int) -> int {
    estimate + div_trunc((measured - estimate) * blend, GRAVITY_SCALE as int)
}

/// A gravity estimate moved toward the current reading.
pub open spec fn blended(estimate: [i32; 3], accel: [i32; 3], elapsed_ms: u16, tau_ms: i32) -> [i32; 3] {
    let b = blend_factor(elapsed_ms, tau_ms);
    [
        blended_axis(estimate[0], accel[0], b) as i32,
        blended_axis(estimate[1], accel[1], b) as i32,
        blended_axis(estimate[2], accel[2], b) as i32,
    ]
}

pub open spec fn magnitude_sq(accel: [i32; 3]) -> int {
    accel[0] * accel[0] + accel[1] * accel[1] + accel[2] * accel[2]
}

/// The squared length of a reading's departure from an estimate.
pub open spec fn residual_sq(accel: [i32; 3], estimate: [i32; 3]) -> int {
    (accel[0] - estimate[0]) * (accel[0] - estimate[0]) + (accel[1] - estimate[1]) * (accel[1]
        - estimate[1]) + (accel[2] - estimate[2]) * (accel[2] - estimate[2])
}

/// The still band as an interval on the squared magnitude.
pub open spec fn still(accel: [i32; 3]) -> bool {
    let lo = GRAVITY_MG - STILL_GRAVITY_DEV_MG;
    let hi = GRAVITY_MG + STILL_GRAVITY_DEV_MG;
    lo * lo < magnitude_sq(accel) && magnitude_sq(accel) < hi * hi
}

/// The integer root the pipeline takes: zero for a value that is not
/// positive.
pub open spec fn root_of(v: int) -> int {
    if v <= 0 {
        0
    } else {
        floor_sqrt(v)
    }
}

/// How far the measured magnitude sits from one g, in mG: the squared
/// magnitude is narrowed to `i32` before the root is taken.
pub open spec fn deviation(accel: [i32; 3]) -> int {
    abs(root_of((magnitude_sq(accel) as i32) as int) - GRAVITY_MG)
}

/// Whether one axis of a gravity blend stays inside `i32`: the gap between
/// estimate and reading, and that gap scaled by the blend.
pub open spec fn axis_blend_fits(estimate: i32, measured: i32, blend: int) -> bool {
    let gap = measured - estimate;
    &&& i32::MIN <= gap <= i32::MAX
    &&& i32::MIN <= gap * blend <= i32::MAX
}

/// Whether a gravity blend stays inside `i32` on every axis.
pub open spec fn blend_fits(estimate: [i32; 3], accel: [i32; 3], elapsed_ms: u16, tau_ms: i32) -> bool {
    let b = blend_factor(elapsed_ms, tau_ms);
    &&& axis_blend_fits(estimate[0], accel[0], b)
    &&& axis_blend_fits(estimate[1], accel[1], b)
    &&& axis_blend_fits(estimate[2], accel[2], b)
}

/// Hysteresis is signed: rolling from +20° to -20° is an exit.
pub open spec fn tilt_holds(dir: TiltDir, roll: int, pitch: int) -> bool {
    match dir {
        TiltDir::Right => roll >= TILT_EXIT_DEG_X10,
        TiltDir::Left => roll <= -TILT_EXIT_DEG_X10,
        TiltDir::Up => pitch >= TILT_EXIT_DEG_X10,
        TiltDir::Down => pitch <= -TILT_EXIT_DEG_X10,
    }
}

/// The tilt a reading enters, on the dominant of roll and pitch.
pub open spec fn dominant_tilt(roll: int, pitch: int) -> Option<TiltDir> {
    if abs(roll) >= abs(pitch) {
        if roll >= TILT_ENTER_DEG_X10 {
            Some(TiltDir::Right)
        } else if roll <= -TILT_ENTER_DEG_X10 {
            Some(TiltDir::Left)
        } else {
            None
        }
    } else {
        if pitch >= TILT_ENTER_DEG_X10 {
            Some(TiltDir::Up)
        } else if pitch <= -TILT_ENTER_DEG_X10 {
            Some(TiltDir::Down)
        } else {
            None
        }
    }
}

/// Portrait or landscape by the larger in-plane axis; flat has none.
pub open spec fn posture_of(accel: [i32; 3]) -> Option<MotionEvent> {
    let h = abs(accel[0] as int);
    let v = abs(accel[1] as int);
    let m = if h >= v { h } else { v };
    if m < POSTURE_FLAT_MG {
        None
    } else if h > v {
        Some(MotionEvent::Landscape)
    } else {
        Some(MotionEvent::Portrait)
    }
}

pub open spec fn sat_add16(a: u16, b: u16) -> u16 {
    if a + b > u16::MAX {
        u16::MAX
    } else {
        (a + b) as u16
    }
}

pub open spec fn sat_sub16(a: u16, b: u16) -> u16 {
    if a >= b {
        (a - b) as u16
    } else {
        0
    }
}

/// Time since the previous valid poll (one scan period before the first),
/// saturated to `u16`.
pub open spec fn elapsed_since(last_ms: Option<u64>, now_ms: u64) -> u16 {
    let e = match last_ms {
        Some(previous) => elapsed(now_ms, previous) as int,
        None => MOTION_SCAN_MS as int,
    };
    if e > u16::MAX {
        u16::MAX
    } else {
        e as u16
    }
}

/// Whether a clock anchor is older than `window_ms`.
pub open spec fn past_window(at: Option<u64>, now_ms: u64, window_ms: u16) -> bool {
    at is Some && elapsed(now_ms, at.unwrap()) > window_ms
}

/// Where the knock detector stands.
#[derive(Debug, Clone, Copy, PartialEq, Eq, Structural)]
pub enum TapPhase {
    /// No peak in flight.
    Idle,
    /// A peak is being followed under the decay budget.
    Peak,
    /// A valid peak waiting out the quiet window.
    Quiet,
    /// At least one knock counted; the double-tap window is open.
    Between,
}

// ---------------------------------------------------------------------------
// Executable measures.

/// Integer square root, non-positive values reading as zero.
pub fn isqrt(value: i32) -> (r: i32)
    ensures
        value <= 0 ==> r == 0,
        value > 0 ==> r == floor_sqrt(value as int) && is_floor_sqrt(r as int, value as int),
{
    if value <= 0 {
        return 0;
    }
    let r = isqrt_u32(value as u32);
    assert(r <= 65535) by {
        if r > 65535 {
            assert(r * r >= 65536 * 65536) by (nonlinear_arith)
                requires
                    r >= 65536,
            ;
        }
    }
    r as i32
}

proof fn lemma_root_of_zero()
    ensures
        floor_sqrt(0) == 0,
{
    assert(is_floor_sqrt(0, 0));
    lemma_floor_sqrt_unique(0, 0);
}

/// Every natural number has a floor square root.
proof fn lemma_floor_sqrt_exists(n: int)
    requires
        n >= 0,
    ensures
        is_floor_sqrt(floor_sqrt(n), n),
    decreases n,
{
    if n == 0 {
        assert(is_floor_sqrt(0, 0));
    } else {
        lemma_floor_sqrt_exists(n - 1);
        let r = floor_sqrt(n - 1);
        if (r + 1) * (r + 1) <= n {
            assert(n < (r + 2) * (r + 2)) by (nonlinear_arith)
                requires
                    n - 1 < (r + 1) * (r + 1),
                    r >= 0,
            ;
            assert(is_floor_sqrt(r + 1, n));
        } else {
            assert(is_floor_sqrt(r, n));
        }
    }
}

/// The floor root of a value that fits an `i32` is at most 46340.
proof fn lemma_root_bounded(n: int)
    requires
        0 <= n <= i32::MAX,
    ensures
        0 <= floor_sqrt(n) <= 46340,
{
    lemma_floor_sqrt_exists(n);
    let r = floor_sqrt(n);
    if r > 46340 {
        assert(r * r >= 46341 * 46341) by (nonlinear_arith)
            requires
                r >= 46341,
        ;
    }
}

proof fn lemma_squares_fit(a: int, b: int, c: int, limit: int)
    requires
        a * a + b * b + c * c <= limit,
    ensures
        0 <= a * a <= limit,
        0 <= b * b <= limit,
        0 <= c * c <= limit,
        0 <= a * a + b * b <= limit,
{
    assert(0 <= a * a && 0 <= b * b && 0 <= c * c) by (nonlinear_arith);
}

fn magnitude_squared(accel_mg: [i32; 3]) -> (r: i64)
    requires
        magnitude_sq(accel_mg) <= i64::MAX,
    ensures
        r == magnitude_sq(accel_mg),
{
    let a0 = accel_mg[0] as i64;
    let a1 = accel_mg[1] as i64;
    let a2 = accel_mg[2] as i64;
    proof {
        lemma_squares_fit(a0 as int, a1 as int, a2 as int, i64::MAX as int);
    }
    a0 * a0 + a1 * a1 + a2 * a2
}

/// The stillness test as a band on the squared magnitude.
fn is_still(accel_mg: [i32; 3]) -> (r: bool)
    requires
        magnitude_sq(accel_mg) <= i64::MAX,
    ensures
        r == still(accel_mg),
{
    let mag_sq = magnitude_squared(accel_mg);
    let lo = (GRAVITY_MG - STILL_GRAVITY_DEV_MG) as i64;
    let hi = (GRAVITY_MG + STILL_GRAVITY_DEV_MG) as i64;
    mag_sq > lo * lo && mag_sq < hi * hi
}

/// Signed deviation of the measured magnitude from one g, in mG; the
/// squared magnitude is narrowed to `i32` before its root is taken.
fn gravity_deviation_mg(accel_mg: [i32; 3]) -> (r: i32)
    requires
        magnitude_sq(accel_mg) <= i64::MAX,
    ensures
        r == deviation(accel_mg),
{
    let mag = magnitude_squared(accel_mg);
    let root = isqrt(mag as i32);
    assert(root <= 46341) by {
        if root > 46341 {
            assert(root * root > 46341 * 46341) by (nonlinear_arith)
                requires
                    root > 46341,
            ;
        }
    }
    let d = root - GRAVITY_MG;
    if d < 0 {
        -d
    } else {
        d
    }
}

/// The residual of a reading against an estimate, taken as a vector length.
fn vector_residual_mg(accel_mg: [i32; 3], estimate: [i32; 3]) -> (r: i32)
    requires
        residual_sq(accel_mg, estimate) <= i32::MAX,
    ensures
        r == floor_sqrt(residual_sq(accel_mg, estimate)),
        r >= 0,
{
    let d0 = accel_mg[0] as i64 - estimate[0] as i64;
    let d1 = accel_mg[1] as i64 - estimate[1] as i64;
    let d2 = accel_mg[2] as i64 - estimate[2] as i64;
    proof {
        lemma_squares_fit(d0 as int, d1 as int, d2 as int, i32::MAX as int);
    }
    let squared = d0 * d0 + d1 * d1 + d2 * d2;
    proof {
        if squared == 0 {
            lemma_floor_sqrt_unique(0, 0);
        }
    }
    isqrt(squared as i32)
}

proof fn lemma_blend_factor_bounds(elapsed_ms: u16, tau_ms: i32)
    requires
        0 < tau_ms <= 1_000,
    ensures
        0 <= blend_factor(elapsed_ms, tau_ms) <= GRAVITY_SCALE,
{
    let n = elapsed_ms * GRAVITY_SCALE;
    let d = tau_ms + elapsed_ms;
    assert(n <= 1024 * d);
    vstd::arithmetic::div_mod::lemma_div_is_ordered(n, 1024 * d, d);
    vstd::arithmetic::div_mod::lemma_div_by_multiple(1024, d);
    vstd::arithmetic::div_mod::lemma_div_pos_is_pos(n, d);
}

/// One axis moved toward the reading by `blend`/1024 of the gap; it stays
/// between the estimate and the reading.
fn blend_axis(estimate: i32, measured: i32, blend: i32) -> (r: i32)
    requires
        axis_blend_fits(estimate, measured, blend as int),
        0 <= blend <= GRAVITY_SCALE,
    ensures
        r == blended_axis(estimate, measured, blend as int),
{
    let gap = measured as i64 - estimate as i64;
    let product = gap * blend as i64;
    let step = if product >= 0 {
        product / GRAVITY_SCALE as i64
    } else {
        -((-product) / GRAVITY_SCALE as i64)
    };
    assert(abs(step as int) <= abs(gap as int) && (gap >= 0 ==> step >= 0) && (gap <= 0 ==> step <= 0)) by (nonlinear_arith)
        requires
            product == gap * blend,
            0 <= blend <= 1024,
            product >= 0 ==> step == product / 1024,
            product < 0 ==> step == -((-product) / 1024),
    ;
    (estimate as i64 + step) as i32
}

/// Moves a gravity estimate a fraction of the way toward the current
/// reading, the fraction falling out of the elapsed time over the time
/// constant; it stays between the estimate and the reading per axis.
fn blend_gravity(estimate: [i32; 3], accel_mg: [i32; 3], elapsed_ms: u16, tau_ms: i32) -> (r: [i32; 3])
    requires
        blend_fits(estimate, accel_mg, elapsed_ms, tau_ms),
        0 < tau_ms <= 1_000,
    ensures
        r == blended(estimate, accel_mg, elapsed_ms, tau_ms),
{
    let elapsed = elapsed_ms as i32;
    let blend = elapsed * GRAVITY_SCALE / (tau_ms + elapsed);
    proof {
        lemma_blend_factor_bounds(elapsed_ms, tau_ms);
    }
    let r = [
        blend_axis(estimate[0], accel_mg[0], blend),
        blend_axis(estimate[1], accel_mg[1], blend),
        blend_axis(estimate[2], accel_mg[2], blend),
    ];
    assert(r@ =~= blended(estimate, accel_mg, elapsed_ms, tau_ms)@);
    r
}

/// The squared residual of a reading against an estimate, wide enough for
/// any pair.
fn residual_sq_wide(accel: [i32; 3], estimate: [i32; 3]) -> (r: i128)
    ensures
        r == residual_sq(accel, estimate),
{
    let d0 = accel[0] as i128 - estimate[0] as i128;
    let d1 = accel[1] as i128 - estimate[1] as i128;
    let d2 = accel[2] as i128 - estimate[2] as i128;
    proof {
        lemma_wide_square(d0 as int);
        lemma_wide_square(d1 as int);
        lemma_wide_square(d2 as int);
    }
    d0 * d0 + d1 * d1 + d2 * d2
}

proof fn lemma_wide_square(d: int)
    requires
        -0x1_0000_0000 <= d <= 0x1_0000_0000,
    ensures
        0 <= d * d <= 0x1_0000_0000_0000_0000,
{
    assert(0 <= d * d <= 0x1_0000_0000_0000_0000) by (nonlinear_arith)
        requires
            -0x1_0000_0000 <= d <= 0x1_0000_0000,
    ;
}

/// Whether one axis of a blend stays inside `i32`.
fn axis_blend_fits_exec(estimate: i32, measured: i32, blend: i32) -> (r: bool)
    requires
        0 <= blend <= GRAVITY_SCALE,
    ensures
        r == axis_blend_fits(estimate, measured, blend as int),
{
    let gap = measured as i64 - estimate as i64;
    assert(-0x1_0000_0000 * 1024 <= gap * blend <= 0x1_0000_0000 * 1024) by (nonlinear_arith)
        requires
            -0x1_0000_0000 <= gap <= 0x1_0000_0000,
            0 <= blend <= 1024,
    ;
    let product = gap * blend as i64;
    i32::MIN as i64 <= gap && gap <= i32::MAX as i64 && i32::MIN as i64 <= product && product <= i32::MAX as i64
}

/// Whether a gravity blend stays inside `i32` on every axis.
fn blend_fits_exec(estimate: [i32; 3], accel: [i32; 3], elapsed_ms: u16, tau_ms: i32) -> (r: bool)
    requires
        0 < tau_ms <= 1_000,
    ensures
        r == blend_fits(estimate, accel, elapsed_ms, tau_ms),
{
    let elapsed = elapsed_ms as i32;
    let blend = elapsed * GRAVITY_SCALE / (tau_ms + elapsed);
    proof {
        lemma_blend_factor_bounds(elapsed_ms, tau_ms);
    }
    axis_blend_fits_exec(estimate[0], accel[0], blend) && axis_blend_fits_exec(estimate[1], accel[1], blend)
        && axis_blend_fits_exec(estimate[2], accel[2], blend)
}

fn tilt_holds_exec(dir: TiltDir, roll: i32, pitch: i32) -> (r: bool)
    ensures
        r == tilt_holds(dir, roll as int, pitch as int),
{
    let exit = TILT_EXIT_DEG_X10 as i32;
    match dir {
        TiltDir::Right => roll >= exit,
        TiltDir::Left => roll <= -exit,
        TiltDir::Up => pitch >= exit,
        TiltDir::Down => pitch <= -exit,
    }
}

fn dominant_tilt_exec(roll: i32, pitch: i32) -> (r: Option<TiltDir>)
    requires
        -32768 <= roll <= 32767,
        -32768 <= pitch <= 32767,
    ensures
        r == dominant_tilt(roll as int, pitch as int),
{
    let enter = TILT_ENTER_DEG_X10 as i32;
    let abs_roll = if roll < 0 { -roll } else { roll };
    let abs_pitch = if pitch < 0 { -pitch } else { pitch };
    if abs_roll >= abs_pitch {
        if roll >= enter {
            Some(TiltDir::Right)
        } else if roll <= -enter {
            Some(TiltDir::Left)
        } else {
            None
        }
    } else {
        if pitch >= enter {
            Some(TiltDir::Up)
        } else if pitch <= -enter {
            Some(TiltDir::Down)
        } else {
            None
        }
    }
}

fn posture_exec(accel_mg: [i32; 3]) -> (r: Option<MotionEvent>)
    ensures
        r == posture_of(accel_mg),
{
    let x = accel_mg[0] as i64;
    let y = accel_mg[1] as i64;
    let horizontal = if x < 0 { -x } else { x };
    let vertical = if y < 0 { -y } else { y };
    let larger = if horizontal >= vertical { horizontal } else { vertical };
    if larger < POSTURE_FLAT_MG as i64 {
        None
    } else if horizontal > vertical {
        Some(MotionEvent::Landscape)
    } else {
        Some(MotionEvent::Portrait)
    }
}

// ---------------------------------------------------------------------------
// The recognizer.

/// Derives core-side semantics from the data plane, one valid poll at a
/// time; the stillness and confirm accumulators are time-based, so every
/// poll is consumed, including the ones that raise nothing.
#[derive(Debug, Clone, Copy, PartialEq, Eq)]
pub struct MotionRecognizer {
    tilt: Option<TiltDir>,
    posture: Option<MotionEvent>,
    /// Gravity estimate on a short time constant, for the shake band.
    shake_gravity_mg: [i32; 3],
    /// Until the first valid sample arrives the estimates are unknown.
    gravity_ready: bool,
    last_ms: Option<u64>,
    shake_peaks: u8,
    shake_window_ms: u16,
    /// Whether the last poll was already over the line, so a crossing
    /// counts once per excursion.
    shake_above: bool,
    shake_refractory_ms: u16,
    still_ms: u16,
    motion_ms: u16,
    lifted: bool,
    /// Tap baseline on a slow corner.
    tap_baseline_mg: [i32; 3],
    tap_above: bool,
    tap_prev_quiet: bool,
    tap_phase: TapPhase,
    tap_knocks: u8,
    /// When the current phase was entered, for the peak/quiet budgets.
    tap_at_ms: Option<u64>,
    /// When the first knock of a gesture counted.
    tap_from_ms: Option<u64>,
    /// Time the gesture has spent above the quiet bar.
    tap_motion_ms: u16,
}

/// The tilt stage: a held tilt that no longer holds exits, then a reading
/// with no tilt enters the dominant one.
/// The tilt held after one reading and the tilt events it raises, from the
/// tilt held before: a held tilt that no longer holds exits, then a reading
/// with no tilt enters the dominant one.
pub open spec fn tilt_transition(held: Option<TiltDir>, roll: int, pitch: int) -> (Option<TiltDir>, Seq<MotionEvent>) {
    let (t1, e1) = match held {
        Some(current) => if !tilt_holds(current, roll, pitch) {
            (None::<TiltDir>, seq![MotionEvent::TiltExit(current)])
        } else {
            (held, Seq::<MotionEvent>::empty())
        },
        None => (None::<TiltDir>, Seq::<MotionEvent>::empty()),
    };
    if t1 is None && dominant_tilt(roll, pitch) is Some {
        let next = dominant_tilt(roll, pitch).unwrap();
        (Some(next), e1.push(MotionEvent::TiltEnter(next)))
    } else {
        (t1, e1)
    }
}

#[verifier::opaque]
spec fn tilt_step(r: MotionRecognizer, roll: int, pitch: int) -> (MotionRecognizer, Seq<MotionEvent>) {
    let (t, e) = tilt_transition(r.tilt, roll, pitch);
    (MotionRecognizer { tilt: t, ..r }, e)
}

/// The posture stage: a change of posture is reported (a change to flat
/// silently).
#[verifier::opaque]
spec fn posture_step(r: MotionRecognizer, accel: [i32; 3]) -> (MotionRecognizer, Seq<MotionEvent>) {
    let next = posture_of(accel);
    if next != r.posture {
        (
            MotionRecognizer { posture: next, ..r },
            match next {
                Some(p) => seq![p],
                None => Seq::empty(),
            },
        )
    } else {
        (r, Seq::empty())
    }
}

/// The shake stage: each rise over [`SHAKE_ON_MG`] is one crossing; the
/// [`SHAKE_PEAKS`]th crossing inside the window reports a shake and starts
/// the refractory period, during which nothing else runs.
#[verifier::opaque]
spec fn shake_step(r: MotionRecognizer, shake_mg: i32, elapsed_ms: u16) -> (MotionRecognizer, Seq<MotionEvent>) {
    if r.shake_refractory_ms > 0 {
        (MotionRecognizer { shake_refractory_ms: sat_sub16(r.shake_refractory_ms, elapsed_ms), ..r }, Seq::empty())
    } else {
        let (window, peaks) = if r.shake_window_ms < elapsed_ms {
            (0u16, 0u8)
        } else {
            ((r.shake_window_ms - elapsed_ms) as u16, r.shake_peaks)
        };
        if shake_mg <= SHAKE_ON_MG {
            (
                MotionRecognizer { shake_window_ms: window, shake_peaks: peaks, shake_above: false, ..r },
                Seq::empty(),
            )
        } else if r.shake_above {
            (MotionRecognizer { shake_window_ms: window, shake_peaks: peaks, ..r }, Seq::empty())
        } else if peaks + 1 >= SHAKE_PEAKS {
            (
                MotionRecognizer {
                    shake_above: true,
                    shake_peaks: 0,
                    shake_window_ms: 0,
                    shake_refractory_ms: SHAKE_REFRACTORY_MS,
                    ..r
                },
                seq![MotionEvent::Shake],
            )
        } else {
            (
                MotionRecognizer {
                    shake_above: true,
                    shake_window_ms: if window == 0 { SHAKE_WINDOW_MS } else { window },
                    shake_peaks: (peaks + 1) as u8,
                    ..r
                },
                Seq::empty(),
            )
        }
    }
}

/// The lift/place stage: time inside or outside the still band accumulates,
/// and a dwell of [`DWELL_MS`] flips the lifted state once.
#[verifier::opaque]
spec fn lift_step(r: MotionRecognizer, accel: [i32; 3], elapsed_ms: u16) -> (MotionRecognizer, Seq<MotionEvent>) {
    let (still_ms, motion_ms) = if still(accel) {
        (sat_add16(r.still_ms, elapsed_ms), 0u16)
    } else {
        (0u16, sat_add16(r.motion_ms, elapsed_ms))
    };
    let r1 = MotionRecognizer { still_ms, motion_ms, ..r };
    if !r.lifted && motion_ms >= DWELL_MS {
        (MotionRecognizer { lifted: true, ..r1 }, seq![MotionEvent::Lift])
    } else if r.lifted && still_ms >= DWELL_MS {
        (MotionRecognizer { lifted: false, ..r1 }, seq![MotionEvent::Place])
    } else {
        (r1, Seq::empty())
    }
}

/// The knock detector's phase transition on one poll, given the squared
/// residual, whether it rose from rest, and the clock.
#[verifier::opaque]
spec fn tap_transition(r: MotionRecognizer, square_sum: int, rising: bool, now_ms: u64) -> (MotionRecognizer, Seq<MotionEvent>) {
    match r.tap_phase {
        TapPhase::Idle => if rising {
            (MotionRecognizer { tap_phase: TapPhase::Peak, tap_at_ms: Some(now_ms), ..r }, Seq::empty())
        } else {
            (r, Seq::empty())
        },
        TapPhase::Peak => {
            let expired = past_window(r.tap_at_ms, now_ms, TAP_PEAK_WINDOW_MS);
            if square_sum <= TAP_QUIET_MG2 && !expired {
                (MotionRecognizer { tap_phase: TapPhase::Quiet, tap_at_ms: Some(now_ms), ..r }, Seq::empty())
            } else if expired {
                (MotionRecognizer { tap_phase: TapPhase::Idle, tap_at_ms: None, ..r }, Seq::empty())
            } else {
                (r, Seq::empty())
            }
        },
        TapPhase::Quiet => if rising {
            (MotionRecognizer { tap_phase: TapPhase::Peak, tap_at_ms: Some(now_ms), ..r }, Seq::empty())
        } else if past_window(r.tap_at_ms, now_ms, TAP_QUIET_WINDOW_MS) {
            (
                MotionRecognizer {
                    tap_from_ms: if r.tap_knocks == 0 { Some(now_ms) } else { r.tap_from_ms },
                    tap_knocks: if r.tap_knocks < 3 { (r.tap_knocks + 1) as u8 } else { r.tap_knocks },
                    tap_phase: TapPhase::Between,
                    tap_at_ms: None,
                    ..r
                },
                Seq::empty(),
            )
        } else {
            (r, Seq::empty())
        },
        TapPhase::Between => if rising {
            (MotionRecognizer { tap_phase: TapPhase::Peak, tap_at_ms: Some(now_ms), ..r }, Seq::empty())
        } else if past_window(r.tap_from_ms, now_ms, TAP_DOUBLE_WINDOW_MS) {
            (
                MotionRecognizer {
                    tap_phase: TapPhase::Idle,
                    tap_knocks: 0,
                    tap_at_ms: None,
                    tap_from_ms: None,
                    tap_motion_ms: 0,
                    ..r
                },
                if r.tap_motion_ms < TAP_SETTLED_MOTION_MS {
                    seq![MotionEvent::Tap { count: r.tap_knocks }]
                } else {
                    Seq::empty()
                },
            )
        } else {
            (r, Seq::empty())
        },
    }
}

/// The tap baseline the knock stage measures against: moved toward the
/// reading while idle, held during a gesture.
pub closed spec fn tap_baseline_after(r: MotionRecognizer, accel: [i32; 3], elapsed_ms: u16) -> [i32; 3] {
    if r.tap_phase is Idle {
        blended(r.tap_baseline_mg, accel, elapsed_ms, TAP_BASELINE_TAU_MS)
    } else {
        r.tap_baseline_mg
    }
}

/// The knock stage: the baseline tracks the reading only while idle, the
/// squared residual against it decides, a rise counts only from a quiet
/// sample, and a settled gesture reports its knock count once its window
/// ends. Also yields the residual's root for the readout.
#[verifier::opaque]
spec fn tap_step(r: MotionRecognizer, accel: [i32; 3], elapsed_ms: u16, now_ms: u64) -> (MotionRecognizer, i32, Seq<MotionEvent>) {
    let baseline = tap_baseline_after(r, accel, elapsed_ms);
    let square_sum = residual_sq(accel, baseline);
    let residual = if square_sum >= i32::MAX { i32::MAX } else { floor_sqrt(square_sum) as i32 };
    let above = square_sum > TAP_PEAK_MAG_MG2;
    let rising = !r.tap_above && above && r.tap_prev_quiet;
    let r1 = MotionRecognizer { tap_baseline_mg: baseline, tap_above: above, ..r };
    let (r2, events) = tap_transition(r1, square_sum, rising, now_ms);
    let motion = if r2.tap_from_ms is Some && square_sum > TAP_QUIET_MG2 {
        sat_add16(r2.tap_motion_ms, elapsed_ms)
    } else {
        r2.tap_motion_ms
    };
    (MotionRecognizer { tap_motion_ms: motion, tap_prev_quiet: square_sum <= TAP_QUIET_MG2, ..r2 }, residual, events)
}

/// One poll through the recognizer: the recognizer after it, the sample with
/// its residual readouts filled in, and the semantics raised in stage order
/// (tilt, posture, shake, lift/place, knock). An invalid sample changes
/// nothing and raises nothing; the first valid one defines the orientation
/// instead of being measured against it.
pub closed spec fn recognized(r: MotionRecognizer, sample: MotionSample, now_ms: u64) -> (MotionRecognizer, MotionSample, Seq<MotionEvent>) {
    if !sample.valid {
        (r, sample, Seq::empty())
    } else {
        let accel = sample.accel_mg;
        let el = elapsed_since(r.last_ms, now_ms);
        let r0 = MotionRecognizer { last_ms: Some(now_ms), ..r };
        let r1 = if r.gravity_ready {
            MotionRecognizer { shake_gravity_mg: blended(r.shake_gravity_mg, accel, el, SHAKE_GRAVITY_TAU_MS), ..r0 }
        } else {
            MotionRecognizer { shake_gravity_mg: accel, tap_baseline_mg: accel, gravity_ready: true, ..r0 }
        };
        let shake_mg = floor_sqrt(residual_sq(accel, r1.shake_gravity_mg)) as i32;
        let (r2, e2) = tilt_step(r1, sample.tilt_deg_x10[0] as int, sample.tilt_deg_x10[1] as int);
        let (r3, e3) = posture_step(r2, accel);
        let (r4, e4) = shake_step(r3, shake_mg, el);
        let (r5, e5) = lift_step(r4, accel, el);
        let (r6, tap_mg, e6) = tap_step(r5, accel, el, now_ms);
        let out = MotionSample {
            gravity_deviation_mg: deviation(accel) as i32,
            shake_residual_mg: shake_mg,
            tap_residual_mg: tap_mg,
            ..sample
        };
        (r6, out, e2 + e3 + e4 + e5 + e6)
    }
}

/// Whether a poll stays inside the integer ranges the pipeline computes
/// in: the shake blend and the tap blend in `i32`, the shake residual's
/// square in `i32`, the squared magnitude and the tap residual's square in
/// `i64`, and the two in-plane axes negatable. An invalid sample always is.
pub closed spec fn recognizable(r: MotionRecognizer, sample: MotionSample, now_ms: u64) -> bool {
    sample.valid ==> {
        let accel = sample.accel_mg;
        let el = elapsed_since(r.last_ms, now_ms);
        let gravity = if r.gravity_ready {
            blended(r.shake_gravity_mg, accel, el, SHAKE_GRAVITY_TAU_MS)
        } else {
            accel
        };
        let r1 = if r.gravity_ready {
            r
        } else {
            MotionRecognizer { tap_baseline_mg: accel, ..r }
        };
        &&& r.gravity_ready ==> blend_fits(r.shake_gravity_mg, accel, el, SHAKE_GRAVITY_TAU_MS)
        &&& residual_sq(accel, gravity) <= i32::MAX
        &&& magnitude_sq(accel) <= i64::MAX
        &&& accel[0] != i32::MIN
        &&& accel[1] != i32::MIN
        &&& r1.tap_phase is Idle ==> blend_fits(r1.tap_baseline_mg, accel, el, TAP_BASELINE_TAU_MS)
        &&& residual_sq(accel, tap_baseline_after(r1, accel, el)) <= i64::MAX
    }
}

/// An invalid sample is always accepted and changes nothing: no clock,
/// estimate or accumulator advances, the sample comes back as it was, and
/// nothing is raised.
pub proof fn lemma_invalid_sample_changes_nothing(r: MotionRecognizer, sample: MotionSample, now_ms: u64)
    requires
        !sample.valid,
    ensures
        recognizable(r, sample, now_ms),
        recognized(r, sample, now_ms) == (r, sample, Seq::<MotionEvent>::empty()),
{
}

/// The tilt a recognizer holds.
pub closed spec fn tilt_of(r: MotionRecognizer) -> Option<TiltDir> {
    r.tilt
}

/// The tilt stage runs first: a valid poll's events begin with the tilt
/// transition from the tilt held before, and the recognizer then holds the
/// tilt it leads to.
pub proof fn lemma_tilt_leads(r: MotionRecognizer, sample: MotionSample, now_ms: u64)
    requires
        sample.valid,
    ensures
        ({
            let (t, e) = tilt_transition(tilt_of(r), sample.tilt_deg_x10[0] as int, sample.tilt_deg_x10[1] as int);
            let (after, _, events) = recognized(r, sample, now_ms);
            &&& events.take(e.len() as int) == e
            &&& tilt_of(after) == t
        }),
{
    reveal(tilt_step);
    reveal(posture_step);
    reveal(shake_step);
    reveal(lift_step);
    reveal(tap_step);
    reveal(tap_transition);
    let (t, e) = tilt_transition(tilt_of(r), sample.tilt_deg_x10[0] as int, sample.tilt_deg_x10[1] as int);
    let events = recognized(r, sample, now_ms).2;
    let accel = sample.accel_mg;
    let el = elapsed_since(r.last_ms, now_ms);
    let r0 = MotionRecognizer { last_ms: Some(now_ms), ..r };
    let r1 = if r.gravity_ready {
        MotionRecognizer { shake_gravity_mg: blended(r.shake_gravity_mg, accel, el, SHAKE_GRAVITY_TAU_MS), ..r0 }
    } else {
        MotionRecognizer { shake_gravity_mg: accel, tap_baseline_mg: accel, gravity_ready: true, ..r0 }
    };
    let shake_mg = floor_sqrt(residual_sq(accel, r1.shake_gravity_mg)) as i32;
    let (r2, e2) = tilt_step(r1, sample.tilt_deg_x10[0] as int, sample.tilt_deg_x10[1] as int);
    let (r3, e3) = posture_step(r2, accel);
    let (r4, e4) = shake_step(r3, shake_mg, el);
    let (r5, e5) = lift_step(r4, accel, el);
    let (r6, tap_mg, e6) = tap_step(r5, accel, el, now_ms);
    assert(e2 == e);
    assert(events == e2 + e3 + e4 + e5 + e6);
    assert(events.take(e.len() as int) =~= e);
}

/// A fresh recognizer holds no tilt.
pub proof fn lemma_fresh_holds_no_tilt()
    ensures
        tilt_of(fresh_recognizer()) is None,
{
}

/// The first valid sample defines the orientation instead of being measured
/// against it: it is accepted when its squared magnitude fits an `i32`, it
/// raises no shake, lift, place or knock, its shake and knock residuals read
/// zero, and its deviation is its magnitude's distance from one g.
pub proof fn lemma_first_sample(sample: MotionSample, now_ms: u64)
    requires
        sample.valid,
        magnitude_sq(sample.accel_mg) <= i32::MAX,
    ensures
        recognizable(fresh_recognizer(), sample, now_ms),
        ({
            let (_, out, events) = recognized(fresh_recognizer(), sample, now_ms);
            &&& out.shake_residual_mg == 0
            &&& out.tap_residual_mg == 0
            &&& out.gravity_deviation_mg == abs(floor_sqrt(magnitude_sq(sample.accel_mg)) - GRAVITY_MG)
            &&& forall|i: int|
                0 <= i < events.len() ==> !(#[trigger] events[i] is Shake || events[i] is Lift || events[i] is Place
                    || events[i] is Tap)
        }),
{
    reveal(tilt_step);
    reveal(posture_step);
    reveal(shake_step);
    reveal(lift_step);
    reveal(tap_step);
    reveal(tap_transition);
    let r = fresh_recognizer();
    let accel = sample.accel_mg;
    let el = elapsed_since(r.last_ms, now_ms);
    lemma_squares_fit(accel[0] as int, accel[1] as int, accel[2] as int, i32::MAX as int);
    assert(accel[0] != i32::MIN) by {
        if accel[0] == i32::MIN {
            assert(accel[0] * accel[0] > i32::MAX) by (nonlinear_arith)
                requires
                    accel[0] == i32::MIN,
            ;
        }
    }
    assert(accel[1] != i32::MIN) by {
        if accel[1] == i32::MIN {
            assert(accel[1] * accel[1] > i32::MAX) by (nonlinear_arith)
                requires
                    accel[1] == i32::MIN,
            ;
        }
    }
    let b = blend_factor(el, TAP_BASELINE_TAU_MS);
    assert(blended(accel, accel, el, TAP_BASELINE_TAU_MS) =~= accel) by {
        assert(div_trunc(0 * b, GRAVITY_SCALE as int) == 0);
    }
    assert(residual_sq(accel, accel) == 0);
    lemma_root_of_zero();
    let m = magnitude_sq(accel);
    assert((m as i32) as int == m);
    if m == 0 {
        assert(root_of(m) == floor_sqrt(m));
    }
    lemma_root_bounded(m);
    let r0 = MotionRecognizer { last_ms: Some(now_ms), ..r };
    let r1 = MotionRecognizer { shake_gravity_mg: accel, tap_baseline_mg: accel, gravity_ready: true, ..r0 };
    let (r2, e2) = tilt_step(r1, sample.tilt_deg_x10[0] as int, sample.tilt_deg_x10[1] as int);
    let (r3, e3) = posture_step(r2, accel);
    let (r4, e4) = shake_step(r3, 0i32, el);
    let (r5, e5) = lift_step(r4, accel, el);
    let (r6, tap_mg, e6) = tap_step(r5, accel, el, now_ms);
    assert(e4.len() == 0);
    assert(e5.len() == 0);
    assert(e6.len() == 0);
    let events = recognized(r, sample, now_ms).2;
    assert(events =~= e2 + e3);
    assert forall|i: int| 0 <= i < events.len() implies !(#[trigger] events[i] is Shake || events[i] is Lift
        || events[i] is Place || events[i] is Tap) by {
        if i < e2.len() {
            assert(events[i] == e2[i]);
        } else {
            assert(events[i] == e3[i - e2.len()]);
        }
    }
}

pub closed spec fn fresh_recognizer() -> MotionRecognizer {
    MotionRecognizer {
        tilt: None,
        posture: None,
        shake_gravity_mg: [0i32, 0, 0],
        gravity_ready: false,
        last_ms: None,
        shake_peaks: 0,
        shake_window_ms: 0,
        shake_above: false,
        shake_refractory_ms: 0,
        still_ms: 0,
        motion_ms: 0,
        lifted: false,
        tap_baseline_mg: [0i32, 0, 0],
        tap_above: false,
        tap_prev_quiet: false,
        tap_phase: TapPhase::Idle,
        tap_knocks: 0,
        tap_at_ms: None,
        tap_from_ms: None,
        tap_motion_ms: 0,
    }
}

proof fn lemma_extended_one(slots: Seq<Option<MotionEvent>>, e: MotionEvent)
    ensures
        slots_extended(slots, seq![e]).0 == slots_pushed(slots, e).0,
{
    assert(seq![e].drop_last() =~= Seq::<MotionEvent>::empty());
    assert(seq![e].last() == e);
    assert(slots_extended(slots, Seq::<MotionEvent>::empty()) == (slots, 0nat));
}

proof fn lemma_extended_none(slots: Seq<Option<MotionEvent>>)
    ensures
        slots_extended(slots, Seq::<MotionEvent>::empty()).0 == slots,
{
}

impl MotionRecognizer {
    /// The counters stay under their caps.
    #[verifier::type_invariant]
    spec fn inv(self) -> bool {
        &&& self.shake_peaks < SHAKE_PEAKS
        &&& self.tap_knocks <= 3
    }

    pub closed spec fn state(&self) -> MotionRecognizer {
        *self
    }

    pub fn new() -> (r: Self)
        ensures
            r.state() == fresh_recognizer(),
    {
        MotionRecognizer {
            tilt: None,
            posture: None,
            shake_gravity_mg: [0, 0, 0],
            gravity_ready: false,
            last_ms: None,
            shake_peaks: 0,
            shake_window_ms: 0,
            shake_above: false,
            shake_refractory_ms: 0,
            still_ms: 0,
            motion_ms: 0,
            lifted: false,
            tap_baseline_mg: [0, 0, 0],
            tap_above: false,
            tap_prev_quiet: false,
            tap_phase: TapPhase::Idle,
            tap_knocks: 0,
            tap_at_ms: None,
            tap_from_ms: None,
            tap_motion_ms: 0,
        }
    }

    pub closed spec fn last_poll(&self) -> Option<u64> {
        self.last_ms
    }

    /// When the last valid poll was taken, `None` before the first.
    pub fn last_poll_ms(&self) -> (t: Option<u64>)
        ensures
            t == self.last_poll(),
    {
        self.last_ms
    }

    /// Whether a poll stays inside the integer ranges the pipeline computes
    /// in: see [`recognizable`].
    pub fn accepts(&self, sample: &MotionSample, now_ms: u64) -> (r: bool)
        ensures
            r == recognizable(self.state(), *sample, now_ms),
    {
        if !sample.valid {
            return true;
        }
        let accel = sample.accel_mg;
        let elapsed: u64 = match self.last_ms {
            Some(previous) => now_ms.saturating_sub(previous),
            None => MOTION_SCAN_MS,
        };
        let el: u16 = if elapsed > u16::MAX as u64 {
            u16::MAX
        } else {
            elapsed as u16
        };
        let gravity = if self.gravity_ready {
            if !blend_fits_exec(self.shake_gravity_mg, accel, el, SHAKE_GRAVITY_TAU_MS) {
                return false;
            }
            blend_gravity(self.shake_gravity_mg, accel, el, SHAKE_GRAVITY_TAU_MS)
        } else {
            accel
        };
        if residual_sq_wide(accel, gravity) > i32::MAX as i128 {
            return false;
        }
        let origin = [0i32, 0, 0];
        proof {
            assert(residual_sq(accel, origin) == magnitude_sq(accel));
        }
        if residual_sq_wide(accel, origin) > i64::MAX as i128 {
            return false;
        }
        if accel[0] == i32::MIN || accel[1] == i32::MIN {
            return false;
        }
        let baseline = if self.gravity_ready {
            self.tap_baseline_mg
        } else {
            accel
        };
        let idle = match self.tap_phase {
            TapPhase::Idle => true,
            _ => false,
        };
        let measured_against = if idle {
            if !blend_fits_exec(baseline, accel, el, TAP_BASELINE_TAU_MS) {
                return false;
            }
            blend_gravity(baseline, accel, el, TAP_BASELINE_TAU_MS)
        } else {
            baseline
        };
        residual_sq_wide(accel, measured_against) <= i64::MAX as i128
    }

    fn elapsed_ms(&mut self, now_ms: u64) -> (e: u16)
        ensures
            e == elapsed_since(old(self).last_ms, now_ms),
            *final(self) == (MotionRecognizer { last_ms: Some(now_ms), ..*old(self) }),
    {
        proof {
            use_type_invariant(&*self);
        }
        let elapsed: u64 = match self.last_ms {
            Some(previous) => now_ms.saturating_sub(previous),
            None => MOTION_SCAN_MS,
        };
        self.last_ms = Some(now_ms);
        if elapsed > u16::MAX as u64 {
            u16::MAX
        } else {
            elapsed as u16
        }
    }

    fn update_tilt(&mut self, roll: i32, pitch: i32, events: &mut MotionEvents)
        requires
            -32768 <= roll <= 32767,
            -32768 <= pitch <= 32767,
        ensures
            *final(self) == tilt_step(*old(self), roll as int, pitch as int).0,
            final(events).slots_view() == slots_extended(
                old(events).slots_view(),
                tilt_step(*old(self), roll as int, pitch as int).1,
            ).0,
    {
        proof {
            use_type_invariant(&*self);
        }
        proof {
            reveal(tilt_step);
        }
        let ghost slots0 = events.slots_view();
        let mut exited: Option<TiltDir> = None;
        if let Some(current) = self.tilt {
            if !tilt_holds_exec(current, roll, pitch) {
                self.tilt = None;
                events.push(MotionEvent::TiltExit(current));
                exited = Some(current);
                proof {
                    lemma_extended_one(slots0, MotionEvent::TiltExit(current));
                }
            }
        }
        let ghost e1: Seq<MotionEvent> = match exited {
            Some(c) => seq![MotionEvent::TiltExit(c)],
            None => Seq::empty(),
        };
        let ghost slots1 = events.slots_view();
        assert(slots1 == slots_extended(slots0, e1).0);
        if self.tilt.is_none() {
            if let Some(next) = dominant_tilt_exec(roll, pitch) {
                self.tilt = Some(next);
                events.push(MotionEvent::TiltEnter(next));
                proof {
                    lemma_extended_one(slots1, MotionEvent::TiltEnter(next));
                    lemma_extended_concat(slots0, e1, seq![MotionEvent::TiltEnter(next)]);
                    assert(e1 + seq![MotionEvent::TiltEnter(next)] =~= e1.push(MotionEvent::TiltEnter(next)));
                }
            }
        }
    }

    fn update_posture(&mut self, accel_mg: [i32; 3], events: &mut MotionEvents)
        ensures
            *final(self) == posture_step(*old(self), accel_mg).0,
            final(events).slots_view() == slots_extended(old(events).slots_view(), posture_step(*old(self), accel_mg).1).0,
    {
        proof {
            use_type_invariant(&*self);
        }
        proof {
            reveal(posture_step);
        }
        let next = posture_exec(accel_mg);
        let same = match (next, self.posture) {
            (None, None) => true,
            (Some(a), Some(b)) => a == b,
            _ => false,
        };
        if !same {
            if let Some(current) = next {
                proof {
                    lemma_extended_one(events.slots_view(), current);
                }
                events.push(current);
            }
            self.posture = next;
        }
    }

    /// Confirms the gesture by counting reversals, each crossing carrying
    /// one count against the window running on the clock.
    fn update_shake(&mut self, shake_mg: i32, elapsed_ms: u16, events: &mut MotionEvents)
        ensures
            *final(self) == shake_step(*old(self), shake_mg, elapsed_ms).0,
            final(events).slots_view() == slots_extended(old(events).slots_view(), shake_step(*old(self), shake_mg, elapsed_ms).1).0,
    {
        proof {
            use_type_invariant(&*self);
        }
        proof {
            reveal(shake_step);
        }
        if self.shake_refractory_ms > 0 {
            self.shake_refractory_ms = self.shake_refractory_ms.saturating_sub(elapsed_ms);
            return;
        }
        if self.shake_window_ms < elapsed_ms {
            self.shake_window_ms = 0;
            self.shake_peaks = 0;
        } else {
            self.shake_window_ms = self.shake_window_ms - elapsed_ms;
        }
        if shake_mg <= SHAKE_ON_MG {
            self.shake_above = false;
            return;
        }
        if self.shake_above {
            return;
        }
        self.shake_above = true;
        if self.shake_window_ms == 0 {
            self.shake_window_ms = SHAKE_WINDOW_MS;
        }
        let peaks = self.shake_peaks + 1;
        if peaks >= SHAKE_PEAKS {
            self.shake_peaks = 0;
            self.shake_window_ms = 0;
            self.shake_refractory_ms = SHAKE_REFRACTORY_MS;
            proof {
                lemma_extended_one(events.slots_view(), MotionEvent::Shake);
            }
            events.push(MotionEvent::Shake);
        } else {
            self.shake_peaks = peaks;
        }
    }

    fn update_lift_place(&mut self, accel_mg: [i32; 3], elapsed_ms: u16, events: &mut MotionEvents)
        requires
            magnitude_sq(accel_mg) <= i64::MAX,
        ensures
            *final(self) == lift_step(*old(self), accel_mg, elapsed_ms).0,
            final(events).slots_view() == slots_extended(old(events).slots_view(), lift_step(*old(self), accel_mg, elapsed_ms).1).0,
    {
        proof {
            use_type_invariant(&*self);
        }
        proof {
            reveal(lift_step);
        }
        if is_still(accel_mg) {
            self.still_ms = self.still_ms.saturating_add(elapsed_ms);
            self.motion_ms = 0;
        } else {
            self.motion_ms = self.motion_ms.saturating_add(elapsed_ms);
            self.still_ms = 0;
        }
        if !self.lifted && self.motion_ms >= DWELL_MS {
            self.lifted = true;
            proof {
                lemma_extended_one(events.slots_view(), MotionEvent::Lift);
            }
            events.push(MotionEvent::Lift);
        } else if self.lifted && self.still_ms >= DWELL_MS {
            self.lifted = false;
            proof {
                lemma_extended_one(events.slots_view(), MotionEvent::Place);
            }
            events.push(MotionEvent::Place);
        }
    }
}

/// The stages before the knock leave the knock detector's phase and
/// baseline alone.
proof fn lemma_stages_keep_tap(
    r: MotionRecognizer,
    roll: int,
    pitch: int,
    accel: [i32; 3],
    shake_mg: i32,
    elapsed_ms: u16,
)
    ensures
        tilt_step(r, roll, pitch).0.tap_phase == r.tap_phase,
        tilt_step(r, roll, pitch).0.tap_baseline_mg == r.tap_baseline_mg,
        posture_step(r, accel).0.tap_phase == r.tap_phase,
        posture_step(r, accel).0.tap_baseline_mg == r.tap_baseline_mg,
        shake_step(r, shake_mg, elapsed_ms).0.tap_phase == r.tap_phase,
        shake_step(r, shake_mg, elapsed_ms).0.tap_baseline_mg == r.tap_baseline_mg,
        lift_step(r, accel, elapsed_ms).0.tap_phase == r.tap_phase,
        lift_step(r, accel, elapsed_ms).0.tap_baseline_mg == r.tap_baseline_mg,
{
    reveal(tilt_step);
    reveal(posture_step);
    reveal(shake_step);
    reveal(lift_step);
}

proof fn lemma_stage_lengths(
    r1: MotionRecognizer,
    roll: int,
    pitch: int,
    r2: MotionRecognizer,
    r3: MotionRecognizer,
    r4: MotionRecognizer,
    r5: MotionRecognizer,
    accel: [i32; 3],
    shake_mg: i32,
    elapsed_ms: u16,
    now_ms: u64,
)
    ensures
        tilt_step(r1, roll, pitch).1.len() <= 2,
        posture_step(r2, accel).1.len() <= 1,
        shake_step(r3, shake_mg, elapsed_ms).1.len() <= 1,
        lift_step(r4, accel, elapsed_ms).1.len() <= 1,
        tap_step(r5, accel, elapsed_ms, now_ms).2.len() <= 1,
{
    reveal(tilt_step);
    reveal(posture_step);
    reveal(shake_step);
    reveal(lift_step);
    reveal(tap_step);
    reveal(tap_transition);
}

impl MotionRecognizer {
    fn expired(&self, now_ms: u64, window_ms: u16) -> (r: bool)
        ensures
            r == past_window(self.tap_at_ms, now_ms, window_ms),
    {
        match self.tap_at_ms {
            Some(at) => now_ms.saturating_sub(at) > window_ms as u64,
            None => false,
        }
    }

    fn gesture_ended(&self, now_ms: u64) -> (r: bool)
        ensures
            r == past_window(self.tap_from_ms, now_ms, TAP_DOUBLE_WINDOW_MS),
    {
        match self.tap_from_ms {
            Some(from) => now_ms.saturating_sub(from) > TAP_DOUBLE_WINDOW_MS as u64,
            None => false,
        }
    }

    /// The knock detector: see `tap_step`. Returns the residual readout.
    fn update_tap(&mut self, accel_mg: [i32; 3], elapsed_ms: u16, now_ms: u64, events: &mut MotionEvents) -> (residual: i32)
        requires
            old(self).tap_phase is Idle ==> blend_fits(old(self).tap_baseline_mg, accel_mg, elapsed_ms, TAP_BASELINE_TAU_MS),
            residual_sq(accel_mg, tap_baseline_after(*old(self), accel_mg, elapsed_ms)) <= i64::MAX,
        ensures
            (*final(self), residual) == ({
                let (r, res, _) = tap_step(*old(self), accel_mg, elapsed_ms, now_ms);
                (r, res)
            }),
            final(events).slots_view() == slots_extended(
                old(events).slots_view(),
                tap_step(*old(self), accel_mg, elapsed_ms, now_ms).2,
            ).0,
    {
        proof {
            use_type_invariant(&*self);
        }
        proof {
            reveal(tap_step);
            reveal(tap_transition);
        }
        let idle = match self.tap_phase {
            TapPhase::Idle => true,
            _ => false,
        };
        if idle {
            self.tap_baseline_mg = blend_gravity(self.tap_baseline_mg, accel_mg, elapsed_ms, TAP_BASELINE_TAU_MS);
        }
        let baseline = self.tap_baseline_mg;
        let l0 = accel_mg[0] as i64 - baseline[0] as i64;
        let l1 = accel_mg[1] as i64 - baseline[1] as i64;
        let l2 = accel_mg[2] as i64 - baseline[2] as i64;
        proof {
            lemma_squares_fit(l0 as int, l1 as int, l2 as int, i64::MAX as int);
        }
        let square_sum: i64 = l0 * l0 + l1 * l1 + l2 * l2;
        let residual = if square_sum >= i32::MAX as i64 {
            i32::MAX
        } else {
            proof {
                if square_sum == 0 {
                    lemma_root_of_zero();
                }
            }
            isqrt(square_sum as i32)
        };
        let rested = self.tap_prev_quiet;
        let above = square_sum > TAP_PEAK_MAG_MG2;
        let rising = !self.tap_above && above && rested;
        self.tap_above = above;
        let ghost r1 = *self;
        let ghost slots0 = events.slots_view();
        match self.tap_phase {
            TapPhase::Idle => {
                if rising {
                    self.tap_phase = TapPhase::Peak;
                    self.tap_at_ms = Some(now_ms);
                }
            },
            TapPhase::Peak => {
                if square_sum <= TAP_QUIET_MG2 && !self.expired(now_ms, TAP_PEAK_WINDOW_MS) {
                    self.tap_phase = TapPhase::Quiet;
                    self.tap_at_ms = Some(now_ms);
                } else if self.expired(now_ms, TAP_PEAK_WINDOW_MS) {
                    self.tap_phase = TapPhase::Idle;
                    self.tap_at_ms = None;
                }
            },
            TapPhase::Quiet => {
                if rising {
                    self.tap_phase = TapPhase::Peak;
                    self.tap_at_ms = Some(now_ms);
                } else if self.expired(now_ms, TAP_QUIET_WINDOW_MS) {
                    if self.tap_knocks == 0 {
                        self.tap_from_ms = Some(now_ms);
                    }
                    if self.tap_knocks < 3 {
                        self.tap_knocks = self.tap_knocks + 1;
                    }
                    self.tap_phase = TapPhase::Between;
                    self.tap_at_ms = None;
                }
            },
            TapPhase::Between => {
                if rising {
                    self.tap_phase = TapPhase::Peak;
                    self.tap_at_ms = Some(now_ms);
                } else if self.gesture_ended(now_ms) {
                    if self.tap_motion_ms < TAP_SETTLED_MOTION_MS {
                        proof {
                            lemma_extended_one(slots0, MotionEvent::Tap { count: self.tap_knocks });
                        }
                        events.push(MotionEvent::Tap { count: self.tap_knocks });
                    }
                    self.tap_phase = TapPhase::Idle;
                    self.tap_knocks = 0;
                    self.tap_at_ms = None;
                    self.tap_from_ms = None;
                    self.tap_motion_ms = 0;
                }
            },
        }
        assert(*self == tap_transition(r1, square_sum as int, rising, now_ms).0);
        if self.tap_from_ms.is_some() && square_sum > TAP_QUIET_MG2 {
            self.tap_motion_ms = self.tap_motion_ms.saturating_add(elapsed_ms);
        }
        self.tap_prev_quiet = square_sum <= TAP_QUIET_MG2;
        residual
    }

    /// Consumes every poll, including ones that raise nothing: see
    /// [`recognized`]. The sample's residual readouts are filled in. A poll
    /// that would carry the integer arithmetic out of range is left out
    /// (see [`recognizable`], and [`Self::accepts`] to test for it).
    pub fn recognize(&mut self, sample: &mut MotionSample, now_ms: u64) -> (events: MotionEvents)
        requires
            recognizable(old(self).state(), *old(sample), now_ms),
        ensures
            ({
                let (r, s, raised) = recognized(old(self).state(), *old(sample), now_ms);
                &&& final(self).state() == r
                &&& *final(sample) == s
                &&& events.events() == raised
            }),
            final(sample).accel_mg == old(sample).accel_mg,
            final(sample).gyro_dps_x10 == old(sample).gyro_dps_x10,
            final(sample).valid == old(sample).valid,
    {
        let mut events = MotionEvents::new();
        proof {
            lemma_extended_fresh(Seq::<MotionEvent>::empty());
            assert(slots_extended(absent_slots(MOTION_EVENT_CAPACITY as nat), Seq::<MotionEvent>::empty()).0 == absent_slots(MOTION_EVENT_CAPACITY as nat));
        }
        if !sample.valid {
            return events;
        }
        proof {
            use_type_invariant(&*self);
        }
        let ghost s0 = events.slots_view();
        let elapsed_ms = self.elapsed_ms(now_ms);
        if self.gravity_ready {
            self.shake_gravity_mg = blend_gravity(self.shake_gravity_mg, sample.accel_mg, elapsed_ms, SHAKE_GRAVITY_TAU_MS);
        } else {
            self.shake_gravity_mg = sample.accel_mg;
            self.tap_baseline_mg = sample.accel_mg;
            self.gravity_ready = true;
        }
        let ghost r1 = *self;
        let shake_mg = vector_residual_mg(sample.accel_mg, self.shake_gravity_mg);
        sample.gravity_deviation_mg = gravity_deviation_mg(sample.accel_mg);
        sample.shake_residual_mg = shake_mg;
        let roll = sample.tilt_deg_x10[0] as i32;
        let pitch = sample.tilt_deg_x10[1] as i32;
        self.update_tilt(roll, pitch, &mut events);
        let ghost e2 = tilt_step(r1, roll as int, pitch as int).1;
        let ghost r2 = *self;
        self.update_posture(sample.accel_mg, &mut events);
        let ghost e3 = posture_step(r2, sample.accel_mg).1;
        let ghost r3 = *self;
        proof {
            lemma_extended_concat(s0, e2, e3);
        }
        self.update_shake(shake_mg, elapsed_ms, &mut events);
        let ghost e4 = shake_step(r3, shake_mg, elapsed_ms).1;
        let ghost r4 = *self;
        proof {
            lemma_extended_concat(s0, e2 + e3, e4);
        }
        self.update_lift_place(sample.accel_mg, elapsed_ms, &mut events);
        let ghost e5 = lift_step(r4, sample.accel_mg, elapsed_ms).1;
        let ghost r5 = *self;
        proof {
            lemma_extended_concat(s0, e2 + e3 + e4, e5);
            lemma_stages_keep_tap(r1, roll as int, pitch as int, sample.accel_mg, shake_mg, elapsed_ms);
            lemma_stages_keep_tap(r2, roll as int, pitch as int, sample.accel_mg, shake_mg, elapsed_ms);
            lemma_stages_keep_tap(r3, roll as int, pitch as int, sample.accel_mg, shake_mg, elapsed_ms);
            lemma_stages_keep_tap(r4, roll as int, pitch as int, sample.accel_mg, shake_mg, elapsed_ms);
        }
        let tap_mg = self.update_tap(sample.accel_mg, elapsed_ms, now_ms, &mut events);
        sample.tap_residual_mg = tap_mg;
        let ghost e6 = tap_step(r5, sample.accel_mg, elapsed_ms, now_ms).2;
        proof {
            lemma_extended_concat(s0, e2 + e3 + e4 + e5, e6);
            lemma_stage_lengths(r1, roll as int, pitch as int, r2, r3, r4, r5, sample.accel_mg, shake_mg, elapsed_ms, now_ms);
            lemma_extended_fresh(e2 + e3 + e4 + e5 + e6);
        }
        events
    }
}

impl Default for MotionRecognizer {
    fn default() -> (r: Self)
        ensures
            r.state() == fresh_recognizer(),
    {
        MotionRecognizer::new()
    }
}

} // verus!
