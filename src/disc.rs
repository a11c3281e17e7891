//! The contents of a cell and the two sides of the game.

use vstd::prelude::*;

verus! {

/// What a single cell holds: nothing, or one side's disc.
#[derive(Copy, Clone, PartialEq, Eq, Debug, Structural)]
pub enum Place {
    Void,
    Black,
    White,
}

/// One of the two sides.
#[derive(Copy, Clone, PartialEq, Eq, Debug, Structural)]
pub enum Player {
    Black,
    White,
}

impl Player {
    /// The opposing side.
    pub open spec fn spec_enemy(self) -> Player {
        match self {
            Player::Black => Player::White,
            Player::White => Player::Black,
        }
    }

    /// The cell content of this side's disc.
    pub open spec fn spec_place(self) -> Place {
        match self {
            Player::Black => Place::Black,
            Player::White => Place::White,
        }
    }

    pub fn enemy(self) -> (r: Player)
        ensures
            r == self.spec_enemy(),
    {
        if self == Player::Black {
            Player::White
        } else {
            Player::Black
        }
    }

    pub fn place(self) -> (r: Place)
        ensures
            r == self.spec_place(),
    {
        if self == Player::Black {
            Place::Black
        } else {
            Place::White
        }
    }

    pub fn to_str(self) -> (r: &'static str)
        ensures
            self == Player::Black ==> r@ == "BLACK"@,
            self == Player::White ==> r@ == "WHITE"@,
    {
        if self == Player::Black {
            "BLACK"
        } else {
            "WHITE"
        }
    }
}

impl Place {
    /// The disc of the other side; an empty cell stays empty.
    pub open spec fn spec_opposite(self) -> Place {
        match self {
            Place::Void => Place::Void,
            Place::Black => Place::White,
            Place::White => Place::Black,
        }
    }

    /// The side whose disc this is.
    pub open spec fn spec_player(self) -> Player
        recommends
            self != Place::Void,
    {
        match self {
            Place::White => Player::White,
            _ => Player::Black,
        }
    }

    pub fn opposite(self) -> (r: Place)
        ensures
            r == self.spec_opposite(),
    {
        if self == Place::Black {
            Place::White
        } else if self == Place::White {
            Place::Black
        } else {
            Place::Void
        }
    }

    /// Only a disc belongs to a side: asking this of an empty cell is a
    /// contract violation.
    pub fn player(self) -> (r: Player)
        requires
            self != Place::Void,
        ensures
            r == self.spec_player(),
            r.spec_place() == self,
    {
        if self == Place::Black {
            Player::Black
        } else {
            Player::White
        }
    }

    pub fn to_str(self) -> (r: &'static str)
        ensures
            self == Place::Black ==> r@ == "BLACK"@,
            self == Place::White ==> r@ == "WHITE"@,
            self == Place::Void ==> r@ == "VOID"@,
    {
        if self == Place::Black {
            "BLACK"
        } else if self == Place::White {
            "WHITE"
        } else {
            "VOID"
        }
    }
}

} // verus!
