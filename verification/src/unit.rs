//! Movement points of units.

use vstd::prelude::*;

verus! {

/// The number of fixed-point steps in one whole movement point.
pub const MOVEMENT_SCALE: u32 = 30;

/// Whole movement points scaled to fixed-point steps, capped at `u32::MAX`.
pub open spec fn scaled_points(whole: u32) -> u32 {
    if whole * MOVEMENT_SCALE <= u32::MAX {
        (whole * MOVEMENT_SCALE) as u32
    } else {
        u32::MAX
    }
}

/// An amount of movement, as a fixed-point number with `MOVEMENT_SCALE`
/// steps per whole movement point.
#[derive(Clone, Copy, Debug, PartialEq, Eq, Structural)]
pub struct MovementPoints {
    /// The amount in fixed-point steps.
    pub fixed: u32,
}

impl MovementPoints {
    pub open spec fn spec_fixed(self) -> u32 {
        self.fixed
    }

    /// A number of whole movement points (capped at the largest amount a
    /// `MovementPoints` can hold).
    pub fn from_u32(whole: u32) -> (points: Self)
        ensures
            points.spec_fixed() == scaled_points(whole),
    {
        if whole <= u32::MAX / MOVEMENT_SCALE {
            MovementPoints { fixed: whole * MOVEMENT_SCALE }
        } else {
            MovementPoints { fixed: u32::MAX }
        }
    }

    /// The amount with the given number of fixed-point steps.
    pub fn from_fixed_u32(fixed: u32) -> (points: Self)
        ensures
            points.spec_fixed() == fixed,
    {
        MovementPoints { fixed }
    }

    #[verifier::when_used_as_spec(spec_fixed)]
    pub fn as_fixed_u32(self) -> (fixed: u32)
        ensures
            fixed == self.spec_fixed(),
    {
        self.fixed
    }

    /// Subtracts, stopping at zero.
    pub fn saturating_sub(self, other: Self) -> (points: Self)
        ensures
            points.spec_fixed() == (if self.spec_fixed() >= other.spec_fixed() {
                self.spec_fixed() - other.spec_fixed()
            } else {
                0
            }),
    {
        if self.fixed >= other.fixed {
            MovementPoints { fixed: self.fixed - other.fixed }
        } else {
            MovementPoints { fixed: 0 }
        }
    }

    /// Whether no movement is left.
    pub fn is_exhausted(self) -> (exhausted: bool)
        ensures
            exhausted == (self.spec_fixed() == 0),
    {
        self.fixed == 0
    }

    /// The smaller of this amount and `whole` movement points.
    pub fn min(self, whole: u32) -> (points: Self)
        ensures
            points.spec_fixed() == (if self.spec_fixed() <= scaled_points(whole) {
                self.spec_fixed()
            } else {
                scaled_points(whole)
            }),
    {
        let cap = MovementPoints::from_u32(whole);
        if self.fixed <= cap.fixed {
            self
        } else {
            cap
        }
    }
}

} // verus!
