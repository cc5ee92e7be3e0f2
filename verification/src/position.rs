//! The four seats of a table, and a container with one slot per seat.

use vstd::prelude::*;

verus! {

/// A seat at the table. Play goes North, East, South, West and round again.
#[derive(Debug, Clone, Copy, PartialEq, Eq, Hash, Structural)]
pub enum PlayerPosition {
    North,
    East,
    South,
    West,
}

impl PlayerPosition {
    /// The seat that plays after this one.
    pub open spec fn spec_next(self) -> PlayerPosition {
        match self {
            PlayerPosition::North => PlayerPosition::East,
            PlayerPosition::East => PlayerPosition::South,
            PlayerPosition::South => PlayerPosition::West,
            PlayerPosition::West => PlayerPosition::North,
        }
    }

    /// The seat reached after `n` turns have passed from this one.
    pub open spec fn spec_advance(self, n: nat) -> PlayerPosition
        decreases n,
    {
        if n == 0 {
            self
        } else {
            self.spec_advance((n - 1) as nat).spec_next()
        }
    }

    /// The team of the seat: North and South are team 1, East and West team 2.
    pub open spec fn spec_team(self) -> u8 {
        match self {
            PlayerPosition::North | PlayerPosition::South => 1,
            PlayerPosition::East | PlayerPosition::West => 2,
        }
    }

    /// The seat that plays after this one.
    pub fn next(&self) -> (p: PlayerPosition)
        ensures
            p == self.spec_next(),
    {
        match self {
            PlayerPosition::North => PlayerPosition::East,
            PlayerPosition::East => PlayerPosition::South,
            PlayerPosition::South => PlayerPosition::West,
            PlayerPosition::West => PlayerPosition::North,
        }
    }

    /// The team of the seat: North and South are team 1, East and West team 2.
    pub fn team(&self) -> (t: u8)
        ensures
            t == self.spec_team(),
    {
        match self {
            PlayerPosition::North | PlayerPosition::South => 1,
            PlayerPosition::East | PlayerPosition::West => 2,
        }
    }
}

/// One value for each of the four seats.
#[derive(Debug)]
#[verifier::ext_equal]
pub struct PerSeat<T> {
    pub north: T,
    pub east: T,
    pub south: T,
    pub west: T,
}

impl<T> PerSeat<T> {
    /// The value held for seat `pos`.
    pub open spec fn at(self, pos: PlayerPosition) -> T {
        match pos {
            PlayerPosition::North => self.north,
            PlayerPosition::East => self.east,
            PlayerPosition::South => self.south,
            PlayerPosition::West => self.west,
        }
    }

    /// The same four values with the one for `pos` replaced by `value`.
    pub open spec fn with(self, pos: PlayerPosition, value: T) -> PerSeat<T> {
        match pos {
            PlayerPosition::North => PerSeat { north: value, ..self },
            PlayerPosition::East => PerSeat { east: value, ..self },
            PlayerPosition::South => PerSeat { south: value, ..self },
            PlayerPosition::West => PerSeat { west: value, ..self },
        }
    }

    /// The value held for seat `pos`.
    pub fn get(&self, pos: PlayerPosition) -> (value: &T)
        ensures
            *value == self.at(pos),
    {
        match pos {
            PlayerPosition::North => &self.north,
            PlayerPosition::East => &self.east,
            PlayerPosition::South => &self.south,
            PlayerPosition::West => &self.west,
        }
    }

    /// Replaces the value held for seat `pos`.
    pub fn set(&mut self, pos: PlayerPosition, value: T)
        ensures
            *final(self) == old(self).with(pos, value),
    {
        match pos {
            PlayerPosition::North => { self.north = value; },
            PlayerPosition::East => { self.east = value; },
            PlayerPosition::South => { self.south = value; },
            PlayerPosition::West => { self.west = value; },
        }
    }
}

} // verus!
