//! A single cell of the board.

use vstd::prelude::*;

verus! {

/// What a cell of the board is made of.
#[derive(Clone, Copy, Debug, PartialEq, Eq, PartialOrd, Structural, Hash)]
pub enum FieldType {
    Water,
    Sandbank,
    Island,
    Passenger,
    Goal,
}

impl FieldType {
    /// The letter that stands for this type in a rendered board.
    pub open spec fn letter(self) -> char {
        match self {
            FieldType::Water => 'W',
            FieldType::Sandbank => 'S',
            FieldType::Island => 'I',
            FieldType::Passenger => 'P',
            FieldType::Goal => 'G',
        }
    }

    /// Returns the letter that stands for this type in a rendered board.
    pub fn code(&self) -> (c: char)
        ensures
            c == self.letter(),
    {
        match self {
            FieldType::Water => 'W',
            FieldType::Sandbank => 'S',
            FieldType::Island => 'I',
            FieldType::Passenger => 'P',
            FieldType::Goal => 'G',
        }
    }
}

/// A cell: its type and, on a passenger cell, how many passengers still wait there.
#[derive(Clone, Copy, Debug, PartialEq, Eq, PartialOrd, Structural, Hash)]
pub struct Field {
    pub field_type: FieldType,
    pub passenger: Option<i32>,
}

impl Field {
    /// Whether a passenger count is kept only on a passenger cell.
    pub open spec fn well_formed(self) -> bool {
        self.passenger is Some ==> self.field_type == FieldType::Passenger
    }

    /// Whether a ship next to this cell can take a passenger on board.
    pub open spec fn offers_passenger(self) -> bool {
        &&& self.field_type == FieldType::Passenger
        &&& self.passenger matches Some(n)
        &&& n > 0
    }

    /// The cell after one passenger has left it.
    pub open spec fn after_pickup(self) -> Field
        recommends
            self.offers_passenger(),
    {
        Field { field_type: self.field_type, passenger: Some((self.passenger->0 - 1) as i32) }
    }

    /// A cell of the given type. The passenger count is kept only on a passenger cell.
    pub fn new(field_type: FieldType, passenger: Option<i32>) -> (f: Field)
        ensures
            f.field_type == field_type,
            f.passenger == if field_type == FieldType::Passenger {
                passenger
            } else {
                None::<i32>
            },
            f.well_formed(),
    {
        match field_type {
            FieldType::Passenger => Field { field_type, passenger },
            _ => Field { field_type, passenger: None },
        }
    }

    pub fn field_type(&self) -> (t: FieldType)
        ensures
            t == self.field_type,
    {
        self.field_type
    }

    pub fn passenger(&self) -> (p: Option<i32>)
        ensures
            p == self.passenger,
    {
        self.passenger
    }

    /// Tells whether a ship next to this cell can take a passenger on board.
    pub fn has_waiting_passenger(&self) -> (b: bool)
        ensures
            b == self.offers_passenger(),
    {
        match (self.field_type, self.passenger) {
            (FieldType::Passenger, Some(n)) => n > 0,
            _ => false,
        }
    }
}

} // verus!
