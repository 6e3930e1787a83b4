//! Actions that a ship's owner takes on a snapshot of the game.

use vstd::prelude::*;
use crate::game_state::GameState;
use crate::ship::Ship;

verus! {

/// Why an exchange of carrots was not made: the rules of the game do not permit it.
#[derive(Clone, Copy, Debug, PartialEq, Eq, PartialOrd, Structural, Hash)]
pub struct CannotExchangeCarrots;

/// The exchange of a number of carrots; a negative number gives carrots away.
#[derive(Clone, Copy, Debug, PartialEq, Eq, PartialOrd, Structural, Hash)]
pub struct ExchangeCarrots {
    value: i32,
}

impl ExchangeCarrots {
    /// The number of carrots that the action adds to the stock of a ship.
    pub closed spec fn amount(self) -> int {
        self.value as int
    }

    #[must_use]
    pub fn new(value: i32) -> (action: ExchangeCarrots)
        ensures
            action.amount() == value,
    {
        ExchangeCarrots { value }
    }

    pub fn value(&self) -> (v: i32)
        ensures
            v == self.amount(),
    {
        self.value
    }

    /// Makes the exchange for the current ship of `state`, where the rules of the game
    /// permit it: `permitted` is their verdict on this ship and this number of carrots.
    /// Where they do not, `state` stays as it is and the action fails.
    pub fn perform(&self, state: &mut GameState, permitted: bool) -> (done: Result<
        (),
        CannotExchangeCarrots,
    >)
        requires
            permitted ==> i32::MIN <= old(state).current_ship.carrots + self.amount() <= i32::MAX,
        ensures
            done is Ok <==> permitted,
            final(state).board == old(state).board,
            final(state).current_ship == if permitted {
                Ship {
                    position: old(state).current_ship.position,
                    speed: old(state).current_ship.speed,
                    passengers: old(state).current_ship.passengers,
                    carrots: (old(state).current_ship.carrots + self.amount()) as i32,
                }
            } else {
                old(state).current_ship
            },
    {
        if permitted {
            state.current_ship.carrots = state.current_ship.carrots + self.value;
            Ok(())
        } else {
            Err(CannotExchangeCarrots)
        }
    }
}

} // verus!
