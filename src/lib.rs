//! Wheel-alignment geometry (toe, camber, yaw, laser angle and track widths)
//! computed from laser distance readings at the four wheels.
use vstd::prelude::*;

pub mod decimal;
pub mod geometry;

verus! {

} // verus!
