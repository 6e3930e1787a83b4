//! A snapshot of the game as the board's queries see it.

use vstd::prelude::*;
use crate::board::{lemma_field_on_board, lemma_first_offer, lemma_with_field, Board, BoardView};
use crate::coordinate::{CubeDirection, Hex};
use crate::field::{Field, FieldType};
use crate::ship::Ship;

verus! {

/// The board and the ship whose turn it is.
#[derive(Debug, PartialEq, Eq, PartialOrd, Hash)]
pub struct GameState {
    pub board: Board,
    pub current_ship: Ship,
}

/// What a snapshot is, as a mathematical value.
pub struct GameStateView {
    pub board: BoardView,
    pub current_ship: Ship,
}

impl GameStateView {
    /// The direction, by its index in the clockwise order, in which the current ship takes a
    /// passenger on board: the first in which one waits next to the ship, provided that the
    /// ship moves at an effective speed below two on the board `rules`.
    pub open spec fn pickup_direction(self, rules: BoardView) -> Option<int> {
        if rules.effective_speed(self.current_ship) < 2 {
            self.board.first_offer(self.current_ship.position@, 6)
        } else {
            None
        }
    }

    /// The snapshot after the current ship has tried to take a passenger on board.
    pub open spec fn after_pickup(self, rules: BoardView) -> GameStateView {
        match self.pickup_direction(rules) {
            Some(i) => {
                let cell = self.current_ship.position@.plus(CubeDirection::at(i).unit());
                GameStateView {
                    board: self.board.with_field(
                        cell,
                        self.board.field_at(cell)->0.after_pickup(),
                    ),
                    current_ship: Ship {
                        position: self.current_ship.position,
                        speed: self.current_ship.speed,
                        passengers: (self.current_ship.passengers + 1) as i32,
                        carrots: self.current_ship.carrots,
                    },
                }
            },
            None => self,
        }
    }
}

/// Taking a passenger on board changes nothing where the ship is too fast, at an effective
/// speed of two or more, or where no passenger waits next to it. Otherwise the first
/// neighbouring cell in the clockwise order on which a passenger waits gives up one
/// passenger, the ship carries one more, and every other cell keeps its field.
pub proof fn lemma_pickup(state: GameStateView, rules: BoardView)
    requires
        state.current_ship.passengers < i32::MAX,
    ensures
        rules.effective_speed(state.current_ship) >= 2 ==> state.after_pickup(rules) == state,
        (forall|i: int| 0 <= i < 6 ==> !state.board.offers_toward(i, state.current_ship.position@))
            ==> state.after_pickup(rules) == state,
        rules.effective_speed(state.current_ship) < 2 && (exists|i: int|
            0 <= i < 6 && state.board.offers_toward(i, state.current_ship.position@)) ==> {
            let next = state.after_pickup(rules);
            let ship = state.current_ship;
            &&& state.pickup_direction(rules) matches Some(d)
            &&& 0 <= d < 6
            &&& state.board.offers_toward(d, ship.position@)
            &&& forall|j: int| 0 <= j < d ==> !state.board.offers_toward(j, ship.position@)
            &&& next.current_ship.passengers == ship.passengers + 1
            &&& next.current_ship.position == ship.position
            &&& next.current_ship.speed == ship.speed
            &&& next.current_ship.carrots == ship.carrots
            &&& {
                let cell = ship.position@.plus(CubeDirection::at(d).unit());
                &&& state.board.field_at(cell) matches Some(was)
                &&& was.passenger matches Some(count)
                &&& count > 0
                &&& next.board.field_at(cell) == Some(
                    Field { field_type: FieldType::Passenger, passenger: Some((count - 1) as i32) },
                )
                &&& forall|h: Hex| h != cell ==> next.board.field_at(h) == state.board.field_at(h)
            }
        },
{
    let ship = state.current_ship;
    lemma_first_offer(state.board, ship.position@, 6);
    if rules.effective_speed(ship) < 2 && state.board.first_offer(ship.position@, 6) is Some {
        let d = state.board.first_offer(ship.position@, 6)->0;
        let cell = ship.position@.plus(CubeDirection::at(d).unit());
        let was = state.board.field_at(cell)->0;
        lemma_field_on_board(state.board, cell);
        lemma_with_field(state.board, cell, was.after_pickup(), cell);
        assert forall|h: Hex| h != cell implies state.after_pickup(rules).board.field_at(h)
            == state.board.field_at(h) by {
            lemma_with_field(state.board, cell, was.after_pickup(), h);
        }
    }
}

impl View for GameState {
    type V = GameStateView;

    open spec fn view(&self) -> GameStateView {
        GameStateView { board: self.board@, current_ship: self.current_ship }
    }
}

impl Clone for GameState {
    fn clone(&self) -> (copy: GameState)
        ensures
            copy@ == self@,
    {
        GameState { board: self.board.clone(), current_ship: self.current_ship }
    }
}

impl GameState {
    pub fn new(board: Board, current_ship: Ship) -> (state: GameState)
        ensures
            state.board == board,
            state.current_ship == current_ship,
    {
        GameState { board, current_ship }
    }

    /// Returns the ship whose turn it is.
    pub fn get_current(&self) -> (ship: Ship)
        ensures
            ship == self.current_ship,
    {
        self.current_ship
    }
}

} // verus!
