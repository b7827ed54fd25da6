//! The four directions the hero can look in.

use vstd::prelude::*;

verus! {

#[derive(PartialEq, Eq, Structural, Copy, Clone, Debug)]
pub enum Facing {
    Up,
    Down,
    Left,
    Right,
}

impl Facing {
    /// The direction of a step of `di` rows and `dj` columns. A vertical
    /// component wins over a horizontal one, and no movement at all looks left.
    pub open spec fn spec_from_deltas(di: int, dj: int) -> Facing {
        if di != 0 {
            if di > 0 {
                Facing::Down
            } else {
                Facing::Up
            }
        } else if dj > 0 {
            Facing::Right
        } else {
            Facing::Left
        }
    }

    /// The unit step in this direction, as `(rows, columns)`.
    pub open spec fn spec_to_deltas(self) -> (int, int) {
        match self {
            Facing::Up => (-1, 0),
            Facing::Down => (1, 0),
            Facing::Left => (0, -1),
            Facing::Right => (0, 1),
        }
    }

    pub fn from_deltas(di: isize, dj: isize) -> (f: Facing)
        ensures
            f == Facing::spec_from_deltas(di as int, dj as int),
    {
        if di != 0 {
            if di > 0 {
                Facing::Down
            } else {
                Facing::Up
            }
        } else if dj > 0 {
            Facing::Right
        } else {
            Facing::Left
        }
    }

    pub fn to_deltas(self) -> (d: (isize, isize))
        ensures
            (d.0 as int, d.1 as int) == self.spec_to_deltas(),
    {
        match self {
            Facing::Up => (-1, 0),
            Facing::Down => (1, 0),
            Facing::Left => (0, -1),
            Facing::Right => (0, 1),
        }
    }

    /// Looking along a unit step and stepping along a look are inverse.
    pub proof fn lemma_deltas_round_trip(self)
        ensures
            Facing::spec_from_deltas(self.spec_to_deltas().0, self.spec_to_deltas().1) == self,
    {
    }
}

} // verus!
