//! Plain data types shared with the surrounding application.

use vstd::prelude::*;

verus! {

/// Kind of activity a recording came from.
#[derive(Clone, Copy, Debug, PartialEq, Eq, Structural)]
pub enum WorkoutType {
    Cycling,
    Run,
    WeightTraining,
}

/// A measurement paired with the name of its unit.
#[derive(Clone, Debug)]
pub struct ValueWithUnit<T> {
    pub value: T,
    pub units: String,
}

impl<T> ValueWithUnit<T> {
    /// Pairs a measurement with the name of its unit.
    pub fn new(value: T, units: String) -> (r: ValueWithUnit<T>)
        ensures
            r.value == value,
            r.units == units,
    {
        ValueWithUnit { value, units }
    }
}

} // verus!
