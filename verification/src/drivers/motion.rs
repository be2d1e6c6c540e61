//! The motion data plane: one sensor poll, the recognizer and arbiter it
//! runs through, and the publish filter that keeps a quiet device off the
//! intent bus.
use vstd::prelude::*;

pub mod event;
pub mod recognizer;

use event::{absent_slots, cooldown_pass, present, slots_best_per_group, slots_extended};
use recognizer::{recognizable, recognized, MotionRecognizer};
use crate::drivers::input::{InputEvent, InputSource};

pub use event::{
    MotionArbiter, MotionBatch, MotionCapabilities, MotionCounts, MotionEvent, MotionEvents,
    MotionGroup, TiltDir, MOTION_COOLDOWN_MS, MOTION_EVENT_CAPACITY, RECOGNIZER_CAPABILITY_BITS, recognizer_capabilities,
};

verus! {

/// Poll cadence of the semantic/data plane, four of the app's 5 ms ticks.
pub const MOTION_SCAN_MS: u64 = 20;

/// A moving device publishes only past these deltas.
pub const EMIT_DELTA_MG: i32 = 20;
pub const EMIT_DELTA_DPS_X10: i32 = 50;

#[derive(Debug, Clone, Copy, PartialEq, Eq)]
pub enum MotionError {
    NotReady,
    Bus,
}

#[derive(Debug, Clone, Copy, PartialEq, Eq)]
pub struct MotionSample {
    pub raw_accel: [i16; 3],
    pub raw_gyro: [i16; 3],
    pub accel_mg: [i32; 3],
    pub gyro_dps_x10: [i32; 3],
    /// Roll, pitch, then an integrated yaw (diagnostic only: it drifts).
    pub tilt_deg_x10: [i16; 3],
    pub status: u8,
    /// The gravity-removed accelerometer magnitude's root against the tap
    /// baseline, in mG.
    pub tap_residual_mg: i32,
    /// How far the measured magnitude sits from one g, in mG.
    pub gravity_deviation_mg: i32,
    /// The gravity-removed magnitude against the shake estimate, in mG.
    pub shake_residual_mg: i32,
    pub valid: bool,
}

pub open spec fn abs_int(v: int) -> int {
    if v < 0 {
        -v
    } else {
        v
    }
}

/// The largest per-axis change between two readings.
pub open spec fn spread(current: [i32; 3], previous: [i32; 3]) -> int {
    let d0 = abs_int(current[0] - previous[0]);
    let d1 = abs_int(current[1] - previous[1]);
    let d2 = abs_int(current[2] - previous[2]);
    let m = if d0 >= d1 { d0 } else { d1 };
    if m >= d2 { m } else { d2 }
}

impl Default for MotionSample {
    /// The all-zero invalid frame, the same as [`MotionSample::error`].
    fn default() -> (s: Self)
        ensures
            s == MotionSample::fault(),
    {
        MotionSample::error()
    }
}

impl MotionSample {
    /// Whether a poll moved far enough to be worth publishing: validity
    /// alone decides a fault, otherwise a change past the deltas.
    pub open spec fn changed_from(&self, previous: MotionSample) -> bool {
        self.valid != previous.valid || spread(self.accel_mg, previous.accel_mg) > EMIT_DELTA_MG
            || spread(self.gyro_dps_x10, previous.gyro_dps_x10) > EMIT_DELTA_DPS_X10
    }

    /// The frame a faulted poll publishes: all zero and invalid.
    pub open spec fn fault() -> MotionSample {
        MotionSample {
            raw_accel: [0i16, 0, 0],
            raw_gyro: [0i16, 0, 0],
            accel_mg: [0i32, 0, 0],
            gyro_dps_x10: [0i32, 0, 0],
            tilt_deg_x10: [0i16, 0, 0],
            status: 0,
            tap_residual_mg: 0,
            gravity_deviation_mg: 0,
            shake_residual_mg: 0,
            valid: false,
        }
    }

    pub fn error() -> (s: Self)
        ensures
            s == MotionSample::fault(),
    {
        MotionSample {
            raw_accel: [0, 0, 0],
            raw_gyro: [0, 0, 0],
            accel_mg: [0, 0, 0],
            gyro_dps_x10: [0, 0, 0],
            tilt_deg_x10: [0, 0, 0],
            status: 0,
            tap_residual_mg: 0,
            gravity_deviation_mg: 0,
            shake_residual_mg: 0,
            valid: false,
        }
    }

    /// Whether a poll moved far enough to be worth publishing. Validity
    /// drives this alone, so a fault surfaces on the frame it appears and
    /// clears on the frame it clears.
    fn materially_changed(&self, previous: &Self) -> (r: bool)
        ensures
            r == self.changed_from(*previous),
    {
        self.valid != previous.valid || axis_spread(self.accel_mg, previous.accel_mg)
            > EMIT_DELTA_MG as i64 || axis_spread(self.gyro_dps_x10, previous.gyro_dps_x10)
            > EMIT_DELTA_DPS_X10 as i64
    }
}

fn abs_diff_i32(a: i32, b: i32) -> (r: i64)
    ensures
        r == abs_int(a - b),
{
    let d = a as i64 - b as i64;
    if d < 0 {
        -d
    } else {
        d
    }
}

/// The largest per-axis change between two readings, computed wide enough
/// for any pair.
fn axis_spread(current: [i32; 3], previous: [i32; 3]) -> (r: i64)
    ensures
        r == spread(current, previous),
{
    let d0 = abs_diff_i32(current[0], previous[0]);
    let d1 = abs_diff_i32(current[1], previous[1]);
    let d2 = abs_diff_i32(current[2], previous[2]);
    let m = if d0 >= d1 { d0 } else { d1 };
    if m >= d2 { m } else { d2 }
}

/// A heading in tenths of a degree folded into the half-turn range: the
/// remainder of `value` by a full turn (sign of `value`), moved by one turn
/// when it lies beyond a half turn either way.
pub open spec fn wrapped_tenths(value: int) -> int {
    let r = if value >= 0 { value % 3600 } else { -((-value) % 3600) };
    if r > 1800 {
        r - 3600
    } else if r < -1800 {
        r + 3600
    } else {
        r
    }
}

/// Folds a heading (tenths of a degree) into the half-turn range.
pub fn wrap_tenths(value: i16) -> (r: i16)
    ensures
        r == wrapped_tenths(value as int),
        -1800 <= r <= 1800,
{
    let mut wrapped: i32 = value as i32 % 3_600;
    if wrapped > 1_800 {
        wrapped -= 3_600;
    } else if wrapped < -1_800 {
        wrapped += 3_600;
    }
    wrapped as i16
}

/// One successful poll: the data plane plus whatever the source's own
/// hardware engines reported.
#[derive(Debug, Clone, Copy, PartialEq, Eq)]
pub struct MotionReading {
    pub sample: MotionSample,
    pub hardware: MotionEvents,
}

impl MotionReading {
    pub fn new(sample: MotionSample) -> (r: Self)
        ensures
            r.sample == sample,
            r.hardware.events() == Seq::<MotionEvent>::empty(),
            r.hardware.slots_view() == absent_slots(MOTION_EVENT_CAPACITY as nat),
    {
        MotionReading { sample, hardware: MotionEvents::new() }
    }
}

/// A motion source in whatever position it occupies on the bus. An
/// implementation may report a hardware engine's verdict, raw telemetry, or
/// both; `Ok(None)` means the sensor had no new frame, which is ordinary at
/// this cadence and is not a fault.
pub trait MotionSource {
    fn sample(&mut self, now_ms: u64) -> Result<Option<MotionReading>, MotionError>;
}

/// What a poll of the source handed over: nothing new, or a frame and the
/// hardware engine's slots (a fault reads as the all-zero invalid frame).
pub open spec fn polled_frame(polled: Result<Option<MotionReading>, MotionError>) -> Option<(MotionSample, Seq<Option<MotionEvent>>)> {
    match polled {
        Ok(None) => None,
        Ok(Some(reading)) => Some((reading.sample, reading.hardware.slots_view())),
        Err(_) => Some((MotionSample::fault(), absent_slots(MOTION_EVENT_CAPACITY as nat))),
    }
}

/// The motion input's state, as values.
pub struct MotionState {
    pub recognizer: MotionRecognizer,
    pub last_fired: Seq<Option<u64>>,
    pub last: Option<MotionSample>,
}

/// One frame through the pipeline: a valid frame whose values would carry
/// the recognizer's integer arithmetic out of range (see [`recognizable`])
/// counts as a fault; the recognizer adds its semantics behind the hardware
/// ones, the arbiter keeps one per family out of cooldown, and the batch
/// publishes when the sample materially changed (or is the first) or any
/// semantic survived.
pub open spec fn motion_step(st: MotionState, frame: Option<(MotionSample, Seq<Option<MotionEvent>>)>, now_ms: u64) -> (MotionState, Option<(MotionSample, Seq<Option<MotionEvent>>)>) {
    match frame {
        None => (st, None),
        Some((raw, hardware)) => {
            let admitted = if recognizable(st.recognizer, raw, now_ms) { raw } else { MotionSample::fault() };
            let (recognizer, sample, raised) = recognized(st.recognizer, admitted, now_ms);
            let merged = slots_extended(hardware, raised).0;
            let (last_fired, kept) = cooldown_pass(
                st.last_fired,
                slots_best_per_group(merged),
                now_ms,
                MOTION_EVENT_CAPACITY as int,
            );
            let publishable = match st.last {
                Some(previous) => sample.changed_from(previous),
                None => true,
            };
            let next = MotionState { recognizer, last_fired, last: Some(sample) };
            if !publishable && present(kept).len() == 0 {
                (next, None)
            } else {
                (next, Some((sample, kept)))
            }
        },
    }
}

/// Whether a published event carries exactly the batch a step produced.
pub open spec fn publishes(r: Option<InputEvent>, out: Option<(MotionSample, Seq<Option<MotionEvent>>)>) -> bool {
    match out {
        None => r is None,
        Some((sample, slots)) => r matches Some(InputEvent::Motion(b)) && b.sample == sample && b.events.slots_view() == slots,
    }
}

/// A motion source wired to the recognizer and the arbiter, publishing a
/// batch only when it carries news.
pub struct MotionInput<S> {
    source: S,
    recognizer: MotionRecognizer,
    arbiter: MotionArbiter,
    last: Option<MotionSample>,
}

impl<S> MotionInput<S> {
    pub closed spec fn state(&self) -> MotionState {
        MotionState { recognizer: self.recognizer.state(), last_fired: self.arbiter.last_fired(), last: self.last }
    }

    pub fn new(source: S) -> (m: Self)
        ensures
            m.state() == (MotionState {
                recognizer: recognizer::fresh_recognizer(),
                last_fired: seq![None::<u64>, None, None],
                last: None,
            }),
    {
        MotionInput { source, recognizer: MotionRecognizer::new(), arbiter: MotionArbiter::new(), last: None }
    }

    /// Runs one poll's outcome through the pipeline: see [`motion_step`].
    pub fn ingest(&mut self, polled: Result<Option<MotionReading>, MotionError>, now_ms: u64) -> (r: Option<InputEvent>)
        ensures
            final(self).state() == motion_step(old(self).state(), polled_frame(polled), now_ms).0,
            publishes(r, motion_step(old(self).state(), polled_frame(polled), now_ms).1),
    {
        let reading = match polled {
            Ok(Some(reading)) => reading,
            Ok(None) => {
                return None;
            },
            Err(_) => MotionReading::new(MotionSample::error()),
        };
        let mut sample = if self.recognizer.accepts(&reading.sample, now_ms) {
            reading.sample
        } else {
            MotionSample::error()
        };
        proof {
            if !sample.valid {
                recognizer::lemma_invalid_sample_changes_nothing(self.recognizer.state(), sample, now_ms);
            }
        }
        let mut events = reading.hardware;
        let raised = self.recognizer.recognize(&mut sample, now_ms);
        events.extend_from(raised);
        self.arbiter.resolve(now_ms, &mut events);
        let publishable = match self.last {
            Some(previous) => sample.materially_changed(&previous),
            None => true,
        };
        self.last = Some(sample);
        if !publishable && events.is_empty() {
            return None;
        }
        Some(InputEvent::Motion(MotionBatch { sample, events }))
    }
}

impl<S: MotionSource> MotionInput<S> {
    /// Polls the source and runs whatever came back through the pipeline.
    pub fn poll(&mut self, now_ms: u64) -> (r: Option<InputEvent>)
        ensures
            exists|polled: Result<Option<MotionReading>, MotionError>|
                final(self).state() == motion_step(old(self).state(), polled_frame(polled), now_ms).0
                    && publishes(r, motion_step(old(self).state(), polled_frame(polled), now_ms).1),
    {
        let polled = self.source.sample(now_ms);
        self.ingest(polled, now_ms)
    }
}

impl<S: MotionSource> InputSource for MotionInput<S> {
    open spec fn may_yield(&self, now_ms: u64, r: Option<InputEvent>) -> bool {
        exists|polled: Result<Option<MotionReading>, MotionError>|
            publishes(r, #[trigger] motion_step(self.state(), polled_frame(polled), now_ms).1)
    }

    fn poll(&mut self, now_ms: u64) -> (r: Option<InputEvent>)
        ensures
            exists|polled: Result<Option<MotionReading>, MotionError>|
                final(self).state() == motion_step(old(self).state(), polled_frame(polled), now_ms).0
                    && publishes(r, motion_step(old(self).state(), polled_frame(polled), now_ms).1),
    {
        MotionInput::poll(self, now_ms)
    }
}

} // verus!
