//! A ship as the board's queries see it.

use vstd::prelude::*;
use crate::coordinate::CubeCoordinates;

verus! {

/// Where a ship is, how fast it moves and what it carries.
#[derive(Clone, Copy, Debug, PartialEq, Eq, PartialOrd, Structural, Hash)]
pub struct Ship {
    pub position: CubeCoordinates,
    pub speed: i32,
    pub passengers: i32,
    pub carrots: i32,
}

impl Ship {
    pub fn new(position: CubeCoordinates, speed: i32, passengers: i32, carrots: i32) -> (ship: Ship)
        ensures
            ship == (Ship { position, speed, passengers, carrots }),
    {
        Ship { position, speed, passengers, carrots }
    }
}

} // verus!
