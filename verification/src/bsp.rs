//! Pure logic of the board support layer: the IMU driver's unit conversions
//! and status decoding, the panel overlay's text and pixel encodings, and
//! drawing into the panel frame.
use vstd::prelude::*;

pub mod display_light;
pub mod qmi8658;
pub mod overlay;

verus! {

} // verus!
