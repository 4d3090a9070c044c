//! The density scale of the user interface.

use vstd::prelude::*;

verus! {

/// A step of the scale.
#[derive(Clone, Copy, Debug, PartialEq, Eq, Structural)]
pub enum Spacing {
    Zero,
    Xs,
    Sm,
    Md,
    Lg,
    Xl,
}

impl Spacing {
    /// The step in points.
    pub open spec fn size(self) -> int {
        match self {
            Spacing::Zero => 0,
            Spacing::Xs => 2,
            Spacing::Sm => 4,
            Spacing::Md => 8,
            Spacing::Lg => 12,
            Spacing::Xl => 16,
        }
    }

    /// The step in points.
    pub fn points(self) -> (points: i8)
        ensures
            points == self.size(),
    {
        match self {
            Spacing::Zero => 0,
            Spacing::Xs => 2,
            Spacing::Sm => 4,
            Spacing::Md => 8,
            Spacing::Lg => 12,
            Spacing::Xl => 16,
        }
    }
}

} // verus!
