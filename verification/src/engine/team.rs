use vstd::prelude::*;

verus! {

/// One of the two sides of a game.
#[derive(Clone, Copy, Debug, PartialEq, Eq, Structural)]
pub enum Team {
    White,
    Black,
}

impl Team {
    /// The letter of the side in position notation.
    pub fn code(&self) -> (r: char)
        ensures
            r == (if *self == Team::White {
                'w'
            } else {
                'b'
            }),
    {
        match self {
            Team::White => 'w',
            Team::Black => 'b',
        }
    }

    /// The other side.
    pub fn opposite(&self) -> (r: Team)
        ensures
            r != *self,
    {
        match self {
            Team::White => Team::Black,
            Team::Black => Team::White,
        }
    }
}

} // verus!
