//! Core logic of the ambient-light device and its voice server: the input
//! pipeline (button debounce, touch tracking and gesture classification), the
//! motion recognizer and arbiter, the intent interpreter, the device state
//! manager and the render diff, plus the board helpers and the voice
//! server's activation-code pool, reply splitter and echo model.
use vstd::prelude::*;

pub mod activation_pool;
pub mod bsp;
pub mod chii;
pub mod config;
pub mod diagnostics;
pub mod drivers;
pub mod echo;
pub mod horizon;
pub mod intent;
pub mod matcha;
pub mod render;
pub mod render_host;
pub mod splitter;
pub mod state;
mod text;

verus! {

} // verus!
