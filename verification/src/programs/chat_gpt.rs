//! Programs that react to the opponent's last move or record, written to
//! mimic a chat assistant's suggested tactics.

use crate::chance::{coin_flip, pick_color};
use crate::game::{count_opponent, opponent_count, Color, Move};
use vstd::prelude::*;

verus! {

/// The fixed answer to an opponent's option: Blue against Red, Red against
/// Green, Green against Blue.
pub open spec fn counter_of(opponent: Color) -> Color {
    match opponent {
        Color::Red => Color::Blue,
        Color::Green => Color::Red,
        Color::Blue => Color::Green,
    }
}

/// What `chat_gpt_adaptive` may answer: the fixed counter of the
/// opponent's previous option, or anything on the first round.
pub open spec fn chat_gpt_adaptive_permits(h: Seq<Move>, c: Color) -> bool {
    h.len() > 0 ==> c == counter_of(h.last().1)
}

/// Answer the opponent's previous option with its fixed counter; play at
/// random on the first round.
pub fn chat_gpt_adaptive(last_moves: &[Move]) -> (c: Color)
    ensures
        chat_gpt_adaptive_permits(last_moves@, c),
{
    if last_moves.len() > 0 {
        return match last_moves[last_moves.len() - 1].1 {
            Color::Red => Color::Blue,
            Color::Green => Color::Red,
            Color::Blue => Color::Green,
        };
    }
    pick_color(&[Color::Red, Color::Green, Color::Blue])
}

/// What `chat_gpt_proactive` may answer: Red against an opponent that has
/// played more Green than Blue, Green otherwise; anything on the first
/// round.
pub open spec fn chat_gpt_proactive_permits(h: Seq<Move>, c: Color) -> bool {
    h.len() > 0 ==> c == if opponent_count(h, Color::Green) > opponent_count(h, Color::Blue) {
        Color::Red
    } else {
        Color::Green
    }
}

/// Exploit an opponent that leans Green, cooperate with any other; play at
/// random on the first round.
pub fn chat_gpt_proactive(last_moves: &[Move]) -> (c: Color)
    ensures
        chat_gpt_proactive_permits(last_moves@, c),
{
    if last_moves.len() > 0 {
        let green_count = count_opponent(last_moves, Color::Green);
        let blue_count = count_opponent(last_moves, Color::Blue);
        return if green_count > blue_count {
            Color::Red
        } else {
            Color::Green
        };
    }
    pick_color(&[Color::Red, Color::Green, Color::Blue])
}

/// Half the time play at random; otherwise answer the opponent's previous
/// option with its fixed counter. With the random half in play any colour
/// can come out, so nothing narrower can be promised.
pub fn chat_gpt_versatile(last_moves: &[Move]) -> Color {
    if last_moves.len() == 0 || coin_flip() {
        return pick_color(&[Color::Red, Color::Green, Color::Blue]);
    }
    match last_moves[last_moves.len() - 1].1 {
        Color::Red => Color::Blue,
        Color::Green => Color::Red,
        Color::Blue => Color::Green,
    }
}

} // verus!
