//! Device-level diagnostics: one snapshot fuses the touch-path readout and
//! one light snapshot per surface, and fans out through pluggable sinks.
use vstd::prelude::*;

use crate::drivers::input::{FingerLast, MAX_TRACKED_POINTS};
use crate::drivers::light::MAX_LIGHTS;

verus! {

/// Breathing mode's full dimension set; all zero outside breathing.
#[derive(Debug, Clone, Copy, PartialEq, Eq, Structural)]
pub struct BreathSnapshot {
    pub period_ms: u16,
    pub hue_period_ms: u16,
    pub hue_span: u8,
    pub group_len: u8,
    pub min_brightness: u8,
    pub max_brightness: u8,
    pub saturation: u8,
}

pub open spec fn zero_breath_snapshot() -> BreathSnapshot {
    BreathSnapshot {
        period_ms: 0,
        hue_period_ms: 0,
        hue_span: 0,
        group_len: 0,
        min_brightness: 0,
        max_brightness: 0,
        saturation: 0,
    }
}

impl Default for BreathSnapshot {
    fn default() -> (b: Self)
        ensures
            b == zero_breath_snapshot(),
    {
        BreathSnapshot {
            period_ms: 0,
            hue_period_ms: 0,
            hue_span: 0,
            group_len: 0,
            min_brightness: 0,
            max_brightness: 0,
            saturation: 0,
        }
    }
}

/// One light's `(mode, brightness, hue)` plus its breathing dimensions:
/// mode `0` off, `1` breathing, `2` solid.
#[derive(Debug, Clone, Copy, PartialEq, Eq, Structural)]
pub struct LightSnapshot {
    pub mode: u8,
    pub brightness: u8,
    pub hue: u8,
    pub breath: BreathSnapshot,
}

pub open spec fn zero_light_snapshot() -> LightSnapshot {
    LightSnapshot { mode: 0, brightness: 0, hue: 0, breath: zero_breath_snapshot() }
}

impl Default for LightSnapshot {
    fn default() -> (l: Self)
        ensures
            l == zero_light_snapshot(),
    {
        LightSnapshot { mode: 0, brightness: 0, hue: 0, breath: BreathSnapshot::default() }
    }
}

/// The touch-path diagnostics: counter gaps between `taps` and `presses`
/// localize dropped touches, `ghosts` flags input trouble, `points`/`finger`
/// carry the live per-finger readout.
#[derive(Debug, Clone, Copy, PartialEq, Eq)]
pub struct TouchDiagnostics {
    pub taps: u8,
    pub presses: u8,
    pub double_taps: u8,
    pub long_presses: u8,
    pub ghosts: u8,
    /// Live contact position of each tracked slot; `None` while free.
    pub points: [Option<(u16, u16)>; MAX_TRACKED_POINTS],
    /// Direction code of each slot's latest move.
    pub live_dir: [u8; MAX_TRACKED_POINTS],
    pub two_finger_runs: u8,
    /// Applied raw-frame heartbeat.
    pub frames: u16,
    /// Per-slot last resolved gesture.
    pub finger: [FingerLast; MAX_TRACKED_POINTS],
    /// Hold (ms) of the last resolved lift.
    pub held_ms: u16,
    pub swipes: u8,
    /// Direction code of the last resolved swipe, `0` before any.
    pub last_swipe_dir: u8,
    /// Length (px) of the last resolved swipe.
    pub last_swipe_dist: u16,
    pub last_gesture_origin: Option<(u16, u16)>,
    pub last_gesture_end: Option<(u16, u16)>,
    /// Last raw chip gesture id, `0` when none.
    pub chip_gesture_id: u8,
}

pub open spec fn zero_touch_diagnostics() -> TouchDiagnostics {
    TouchDiagnostics {
        taps: 0,
        presses: 0,
        double_taps: 0,
        long_presses: 0,
        ghosts: 0,
        points: [None, None],
        live_dir: [0u8, 0u8],
        two_finger_runs: 0,
        frames: 0,
        finger: [FingerLast { kind: 0, dir: 0, value: 0 }, FingerLast { kind: 0, dir: 0, value: 0 }],
        held_ms: 0,
        swipes: 0,
        last_swipe_dir: 0,
        last_swipe_dist: 0,
        last_gesture_origin: None,
        last_gesture_end: None,
        chip_gesture_id: 0,
    }
}

impl Default for TouchDiagnostics {
    fn default() -> (t: Self)
        ensures
            t == zero_touch_diagnostics(),
    {
        let zero = FingerLast { kind: 0, dir: 0, value: 0 };
        let t = TouchDiagnostics {
            taps: 0,
            presses: 0,
            double_taps: 0,
            long_presses: 0,
            ghosts: 0,
            points: [None, None],
            live_dir: [0, 0],
            two_finger_runs: 0,
            frames: 0,
            finger: [zero, zero],
            held_ms: 0,
            swipes: 0,
            last_swipe_dir: 0,
            last_swipe_dist: 0,
            last_gesture_origin: None,
            last_gesture_end: None,
            chip_gesture_id: 0,
        };
        assert(t.points =~= zero_touch_diagnostics().points);
        assert(t.live_dir =~= zero_touch_diagnostics().live_dir);
        assert(t.finger =~= zero_touch_diagnostics().finger);
        t
    }
}

/// The on-surface diagnostics payload: touch-path readout plus one light
/// snapshot per surface.
#[derive(Debug, Clone, Copy, PartialEq, Eq)]
pub struct Diagnostics {
    pub touch: TouchDiagnostics,
    pub lights: [LightSnapshot; MAX_LIGHTS],
}

impl Default for Diagnostics {
    fn default() -> (d: Self)
        ensures
            d.touch == zero_touch_diagnostics(),
            d.lights@ == seq![zero_light_snapshot(), zero_light_snapshot()],
    {
        let d = Diagnostics { touch: TouchDiagnostics::default(), lights: [LightSnapshot::default(), LightSnapshot::default()] };
        assert(d.lights@ =~= seq![zero_light_snapshot(), zero_light_snapshot()]);
        d
    }
}

/// Consumer of the device diagnostic snapshot; the default ignores it.
pub trait DiagnosticsSink {
    /// Deliver the latest device diagnostic snapshot.
    fn consume(&mut self, diagnostics: &Diagnostics) {
    }
}

} // verus!
