//! The simplest player programs: fixed answers, copying, and cooperation
//! until the opponent defects.

use crate::chance::pick_color;
use crate::game::{Color, Move};
use vstd::prelude::*;

verus! {

/// Always cooperate.
pub fn friendly(_last_moves: &[Move]) -> (c: Color)
    ensures
        c == Color::Green,
{
    Color::Green
}

/// Always defect.
pub fn evil(_last_moves: &[Move]) -> (c: Color)
    ensures
        c == Color::Red,
{
    Color::Red
}

/// Always go for the Blue bonus.
pub fn blue(_last_moves: &[Move]) -> (c: Color)
    ensures
        c == Color::Blue,
{
    Color::Blue
}

/// Play a uniformly random colour.
pub fn random(_last_moves: &[Move]) -> Color {
    pick_color(&[Color::Red, Color::Green, Color::Blue])
}

/// Whether the opponent has defected at least once in a history.
pub open spec fn opponent_defected(h: Seq<Move>) -> bool {
    exists|i: int| 0 <= i < h.len() && h[i].1 == Color::Red
}

/// What `cooperate_until_defection` may answer: Green until the opponent
/// has played Red once, afterwards Red or Blue at random.
pub open spec fn cooperate_until_defection_permits(h: Seq<Move>, c: Color) -> bool {
    if opponent_defected(h) {
        c == Color::Red || c == Color::Blue
    } else {
        c == Color::Green
    }
}

/// Cooperate until the opponent defects once; from then on answer Red or
/// Blue at random.
pub fn cooperate_until_defection(last_moves: &[Move]) -> (c: Color)
    ensures
        cooperate_until_defection_permits(last_moves@, c),
{
    let mut i: usize = 0;
    while i < last_moves.len()
        invariant
            i <= last_moves@.len(),
            forall|k: int| 0 <= k < i ==> last_moves@[k].1 != Color::Red,
        decreases last_moves@.len() - i,
    {
        if last_moves[i].1 == Color::Red {
            return pick_color(&[Color::Red, Color::Blue]);
        }
        i = i + 1;
    }
    Color::Green
}

/// What `copy` may answer: the opponent's previous option, or anything on
/// the first round.
pub open spec fn copy_permits(h: Seq<Move>, c: Color) -> bool {
    h.len() > 0 ==> c == h.last().1
}

/// Copy the opponent's previous option; play at random on the first round.
pub fn copy(last_moves: &[Move]) -> (c: Color)
    ensures
        copy_permits(last_moves@, c),
{
    if last_moves.len() > 0 {
        last_moves[last_moves.len() - 1].1
    } else {
        pick_color(&[Color::Red, Color::Green, Color::Blue])
    }
}

/// What `smarter_copy` may answer: the opponent's previous option, except
/// that Blue is answered with Green or Blue; anything on the first round.
pub open spec fn smarter_copy_permits(h: Seq<Move>, c: Color) -> bool {
    h.len() > 0 ==> if h.last().1 is Blue {
        c == Color::Green || c == Color::Blue
    } else {
        c == h.last().1
    }
}

/// Copy the opponent's previous option, except that Blue is answered with
/// Green or Blue at random; play at random on the first round.
pub fn smarter_copy(last_moves: &[Move]) -> (c: Color)
    ensures
        smarter_copy_permits(last_moves@, c),
{
    if last_moves.len() > 0 {
        match last_moves[last_moves.len() - 1].1 {
            Color::Blue => pick_color(&[Color::Green, Color::Blue]),
            opponent_move => opponent_move,
        }
    } else {
        pick_color(&[Color::Red, Color::Green, Color::Blue])
    }
}

} // verus!
