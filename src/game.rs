//! Turn order and the result of a finished game.

use vstd::prelude::*;
use crate::disc::Player;
use crate::field::Field;
use crate::rules::can_move;

verus! {

/// What comes after a side has moved.
#[derive(Copy, Clone, PartialEq, Eq, Debug, Structural)]
pub enum Turn {
    /// The given side moves next.
    Play(Player),
    /// The given side has no legal move and passes; its enemy moves again.
    Pass(Player),
    /// Neither side can move: the game is over.
    End,
}

/// The outcome of a game with the given final disc counts: the side with
/// more discs wins, and equal counts are a draw (`None`).
pub open spec fn spec_winner(black: int, white: int) -> Option<Player> {
    if black > white {
        Some(Player::Black)
    } else if white > black {
        Some(Player::White)
    } else {
        None
    }
}

pub fn winner(black: usize, white: usize) -> (r: Option<Player>)
    ensures
        r == spec_winner(black as int, white as int),
{
    if black > white {
        Some(Player::Black)
    } else if white > black {
        Some(Player::White)
    } else {
        None
    }
}

impl Field {
    /// Decides who moves after `mover` has moved: the enemy if it can; else
    /// the enemy passes and `mover` goes again if it can; else the game ends.
    pub fn next_turn(&self, mover: Player) -> (r: Turn)
        ensures
            can_move(self@, mover.spec_enemy()) ==> r == Turn::Play(mover.spec_enemy()),
            !can_move(self@, mover.spec_enemy()) && can_move(self@, mover) ==> r == Turn::Pass(
                mover.spec_enemy(),
            ),
            !can_move(self@, mover.spec_enemy()) && !can_move(self@, mover) ==> r == Turn::End,
    {
        let next = mover.enemy();
        if self.is_able_to_place_anywhere(next) {
            Turn::Play(next)
        } else if self.is_able_to_place_anywhere(mover) {
            Turn::Pass(next)
        } else {
            Turn::End
        }
    }

}

} // verus!
