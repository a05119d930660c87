//! Power-curve computation for second-by-second power recordings.
//!
//! Given an ordered sequence of non-negative power samples, one per elapsed
//! second, the library computes, for a fixed staircase of candidate window
//! durations, the highest total power accumulated over any contiguous window
//! of that duration. Dividing a row's total by its duration gives the best
//! average power sustained over that duration, so the integer totals computed
//! here determine the power curve exactly; callers perform the division.

pub mod curve;
pub mod staircase;
pub mod structures;
