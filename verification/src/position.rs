//! Where the hero stands, or between which two cells the hero is walking.

use vstd::prelude::*;
use crate::facing::Facing;

verus! {

#[derive(Copy, Clone, Debug)]
pub enum Position {
    /// Standing on `(row, col)`, looking in a direction.
    Block(usize, usize, Facing),
    /// On the way from one cell to the next, `step` ticks into `total`.
    Walking { from: (usize, usize), to: (usize, usize), step: usize, total: usize },
}

impl Position {
    /// A standing hero looks where told; a walking hero looks where the walk
    /// is going.
    pub open spec fn spec_facing(self) -> Facing {
        match self {
            Position::Block(_, _, f) => f,
            Position::Walking { from, to, .. } => Facing::spec_from_deltas(
                to.0 - from.0,
                to.1 - from.1,
            ),
        }
    }

    #[verifier::when_used_as_spec(spec_facing)]
    pub fn facing(self) -> (f: Facing)
        ensures
            f == self.spec_facing(),
    {
        match self {
            Position::Block(_, _, f) => f,
            Position::Walking { from, to, .. } => {
                if to.0 != from.0 {
                    if to.0 > from.0 {
                        Facing::Down
                    } else {
                        Facing::Up
                    }
                } else if to.1 > from.1 {
                    Facing::Right
                } else {
                    Facing::Left
                }
            },
        }
    }
}

} // verus!
