//! The sound events the simulation asks the front-end to play.

use vstd::prelude::*;

verus! {

#[derive(PartialEq, Eq, Structural, PartialOrd, Ord, Copy, Clone, Debug)]
pub enum Sounds {
    Walk,
    PickUpCoin,
    PickUpObject,
    EatFood,
    GoThroughDoor,
    BlockedAgainstWall,
}

} // verus!
