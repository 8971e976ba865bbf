//! Prisoner's-dilemma style programs: cooperation with measured
//! retaliation.

use crate::game::{Color, Move};
use vstd::prelude::*;

verus! {

/// What `take_back_once_prisoner` plays: Red exactly when it cooperated in
/// the previous round while the opponent defected, Green otherwise.
pub open spec fn take_back_once_choice(h: Seq<Move>) -> Color {
    if h.len() > 0 && h.last().0 == Color::Green && h.last().1 == Color::Red {
        Color::Red
    } else {
        Color::Green
    }
}

/// Defect once, right after a round in which this player cooperated and the
/// opponent defected; cooperate otherwise.
pub fn take_back_once_prisoner(last_moves: &[Move]) -> (c: Color)
    ensures
        c == take_back_once_choice(last_moves@),
{
    if last_moves.len() > 0 {
        let last_move = last_moves[last_moves.len() - 1];
        if last_move.0 == Color::Green && last_move.1 == Color::Red {
            return Color::Red;
        }
    }
    Color::Green
}

/// What `tit_for_tat_prisoner` plays: Red exactly when the opponent
/// defected in the previous round, Green otherwise.
pub open spec fn tit_for_tat_choice(h: Seq<Move>) -> Color {
    if h.len() > 0 && h.last().1 == Color::Red {
        Color::Red
    } else {
        Color::Green
    }
}

/// Defect exactly when the opponent defected in the previous round.
pub fn tit_for_tat_prisoner(last_moves: &[Move]) -> (c: Color)
    ensures
        c == tit_for_tat_choice(last_moves@),
{
    if last_moves.len() > 0 {
        if last_moves[last_moves.len() - 1].1 == Color::Red {
            return Color::Red;
        }
    }
    Color::Green
}

/// What `tit_for_two_tats_prisoner` plays: Red exactly when the opponent
/// defected in both of the two previous rounds, Green otherwise.
pub open spec fn tit_for_two_tats_choice(h: Seq<Move>) -> Color {
    if h.len() >= 2 && h[h.len() - 2].1 == Color::Red && h[h.len() - 1].1 == Color::Red {
        Color::Red
    } else {
        Color::Green
    }
}

/// Defect exactly when the opponent defected in both of the two previous
/// rounds.
pub fn tit_for_two_tats_prisoner(last_moves: &[Move]) -> (c: Color)
    ensures
        c == tit_for_two_tats_choice(last_moves@),
{
    if last_moves.len() < 2 {
        return Color::Green;
    }
    if last_moves[last_moves.len() - 2].1 == Color::Red && last_moves[last_moves.len() - 1].1
        == Color::Red {
        return Color::Red;
    }
    Color::Green
}

} // verus!
