use vstd::prelude::*;

verus! {

/// A statistical confidence level, 80% - 99%.
#[derive(Clone, Copy, Debug, PartialEq, Eq, Structural)]
pub enum Confidence {
    C80,
    C85,
    C90,
    C95,
    C99,
}

/// The z-score of a confidence level, scaled by 100 so that it is an
/// exact integer (1.28 becomes 128, and so on).
pub open spec fn spec_z_score_x100(c: Confidence) -> int {
    match c {
        Confidence::C80 => 128,
        Confidence::C85 => 144,
        Confidence::C90 => 165,
        Confidence::C95 => 196,
        Confidence::C99 => 258,
    }
}

impl Confidence {
    /// The z-score of this confidence level, scaled by 100.
    pub fn z_score_x100(&self) -> (z: u64)
        ensures
            z == spec_z_score_x100(*self),
            128 <= z <= 258,
    {
        match self {
            Confidence::C80 => 128,
            Confidence::C85 => 144,
            Confidence::C90 => 165,
            Confidence::C95 => 196,
            Confidence::C99 => 258,
        }
    }
}

} // verus!
