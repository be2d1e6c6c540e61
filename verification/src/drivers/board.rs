//! What a board offers the application: its light surfaces, input sources
//! and motion stack, each taken once.
use vstd::prelude::*;

use crate::diagnostics::DiagnosticsSink;
use crate::drivers::input::PollEntry;
use crate::drivers::light::RgbLight;
use crate::drivers::motion::MotionCapabilities;

verus! {

/// A hardware board instance. Implemented per board in the board support.
pub trait Board: Sized {
}

/// A board exposing light surfaces.
///
/// A surface may drive several pixels wired in one chain; a board with
/// several distinct surfaces returns them all in wiring order, each bound to
/// its own renderer. Every surface also takes diagnostics snapshots, which
/// plain strips ignore.
pub trait HasLight: Board {
    type Light: RgbLight + DiagnosticsSink + 'static;

    /// The board's light surfaces; `None` when none are wired or they were
    /// already taken.
    fn take_lights(&mut self) -> Option<Vec<Self::Light>>;
}

/// A board providing the input sources for the input pipeline. The board
/// owns the wiring and the driver choice; the application consumes the
/// ready-made entries.
pub trait HasInput: Board {
    /// The board's input sources; `None` when no input is wired or it was
    /// already taken.
    fn take_input(&mut self) -> Option<Vec<PollEntry>>;
}

/// A board with a motion sensor.
pub trait HasMotion: Board {
    /// The motion source; `None` once taken.
    fn take_motion(&mut self) -> Option<PollEntry>;

    /// What this board's motion stack can report, driver engines plus the
    /// core classifier; a board without an accelerometer reports none.
    fn motion_capabilities(&self) -> MotionCapabilities;
}

} // verus!
