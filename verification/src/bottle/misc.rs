//! Errors shared by the two kinds of bottles
use vstd::prelude::*;

verus! {

/// All reasons why creating or resizing a [KnownBottle](super::KnownBottle) or
/// [PartialBottle](super::PartialBottle) may fail
#[derive(Debug, Clone, Copy, PartialEq, Eq, Hash, Structural)]
pub enum BottleCapacityError {
    /// The capacity requested is greater than the `MAX_CAP` of the Bottle
    MaxCapExceeded,
    /// The bottle is required to have more content than it has capacity
    CapExceeded,
}

impl BottleCapacityError {
    /// A short description of this error
    pub fn message(&self) -> (r: &'static str)
        ensures
            *self == BottleCapacityError::MaxCapExceeded ==> r@ == "Bottle Maximum Capacity Exceeded"@,
            *self == BottleCapacityError::CapExceeded ==> r@ == "Bottle Capacity Exceeded"@,
    {
        match self {
            BottleCapacityError::MaxCapExceeded => "Bottle Maximum Capacity Exceeded",
            BottleCapacityError::CapExceeded => "Bottle Capacity Exceeded",
        }
    }
}

/// Subset of [BottleCapacityError] including only errors that can occur
/// during normal use of a [KnownBottle](super::KnownBottle)
#[derive(Debug, Clone, Copy, PartialEq, Eq, Hash, Structural)]
pub enum BottleMaxCapError {
    /// The capacity requested is greater than the `MAX_CAP` of the Bottle
    MaxCapExceeded,
}

impl From<BottleMaxCapError> for BottleCapacityError {
    fn from(value: BottleMaxCapError) -> (r: Self) {
        match value {
            BottleMaxCapError::MaxCapExceeded => BottleCapacityError::MaxCapExceeded,
        }
    }
}

impl vstd::std_specs::convert::FromSpecImpl<BottleMaxCapError> for BottleCapacityError {
    open spec fn obeys_from_spec() -> bool {
        true
    }

    open spec fn from_spec(v: BottleMaxCapError) -> Self {
        BottleCapacityError::MaxCapExceeded
    }
}

/// Reasons that pouring a [ColoredWaterRun](crate::colored_water::ColoredWaterRun) into a bottle may fail.
#[derive(Debug, Clone, Copy, PartialEq, Eq, Structural)]
pub enum PourInError {
    /// The destination bottle is full and cannot accept any part of the run
    AlreadyFull,
    /// The destination bottle has a top color that does not match the color of the run
    MismatchedColors,
}

/// Reasons that pouring a run out of a bottle may fail.
#[derive(Debug, Clone, Copy, PartialEq, Eq, Structural)]
pub enum PourOutError {
    /// The source bottle is entirely empty and has no content to pour
    Empty,
    /// The destination bottle could not accept the content to pour
    DestinationError(PourInError),
}

impl From<PourInError> for PourOutError {
    fn from(value: PourInError) -> (r: Self) {
        PourOutError::DestinationError(value)
    }
}

impl vstd::std_specs::convert::FromSpecImpl<PourInError> for PourOutError {
    open spec fn obeys_from_spec() -> bool {
        true
    }

    open spec fn from_spec(v: PourInError) -> Self {
        PourOutError::DestinationError(v)
    }
}

} // verus!
