//! The attitude dial's horizon line, normalized to the dial radius so any
//! panel just multiplies by its own radius.
use vstd::prelude::*;

verus! {

/// Fixed-point scale of the normalized geometry: `1_000` is one dial radius.
pub const SCALE: i32 = 1_000;

/// The horizon line in dial units.
#[derive(Debug, Clone, Copy, PartialEq, Eq)]
pub struct Horizon {
    /// Unit direction along the line (`cos(-roll)`, `sin(-roll)`), so the
    /// horizon stays level with the world while the dial frame rolls.
    pub unit: (i32, i32),
    /// Pitch shift along the vertical axis; a nose-up pitch moves the line
    /// toward the dial's bottom edge.
    pub offset: i32,
}

} // verus!
