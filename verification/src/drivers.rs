use vstd::prelude::*;

pub mod light;
pub mod math;
pub mod motion;
pub mod input;
pub mod gestures;
pub mod board;

verus! {

} // verus!
