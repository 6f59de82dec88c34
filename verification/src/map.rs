use vstd::prelude::*;

verus! {

/// The ways a generation request can fail.
#[derive(Debug, Clone, Copy, PartialEq, Eq, Structural)]
pub enum MapError {
    MinimumRoomSizeMustBeSmallerThanGridSize,
}

impl MapError {
    /// A human-readable account of the failure.
    pub fn description(&self) -> (r: &'static str)
        ensures
            match self {
                MapError::MinimumRoomSizeMustBeSmallerThanGridSize => r@
                    == "Minimum room size must be smaller than grid size"@,
            },
    {
        match self {
            MapError::MinimumRoomSizeMustBeSmallerThanGridSize => {
                "Minimum room size must be smaller than grid size"
            },
        }
    }
}

} // verus!
