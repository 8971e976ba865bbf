//! Programs that read the opponent's whole record before answering.

use crate::chance::pick_color;
use crate::game::{blue_counts, count_blue_options, count_opponent, opponent_count, Color, Move};
use vstd::prelude::*;

verus! {

/// What `try_to_guess` may answer, from the opponent's colour counts: Green
/// against a mostly-Green or mostly-Blue opponent, otherwise Red or Blue at
/// random.
pub open spec fn try_to_guess_permits(h: Seq<Move>, c: Color) -> bool {
    let reds = opponent_count(h, Color::Red);
    let greens = opponent_count(h, Color::Green);
    let blues = opponent_count(h, Color::Blue);
    if reds < greens {
        c == Color::Green
    } else if reds == greens {
        if greens < blues {
            c == Color::Green
        } else {
            c == Color::Red || c == Color::Blue
        }
    } else {
        if reds < blues {
            c == Color::Green
        } else {
            c == Color::Red || c == Color::Blue
        }
    }
}

/// Guess the opponent's most likely next option from its record and answer
/// what scores best against it: Green against Blue or Green, otherwise Red
/// or Blue at random.
pub fn try_to_guess(last_moves: &[Move]) -> (c: Color)
    ensures
        try_to_guess_permits(last_moves@, c),
{
    let red_count = count_opponent(last_moves, Color::Red);
    let green_count = count_opponent(last_moves, Color::Green);
    let blue_count = count_opponent(last_moves, Color::Blue);
    if red_count < green_count {
        Color::Green
    } else if red_count == green_count {
        if green_count < blue_count {
            Color::Green
        } else {
            pick_color(&[Color::Red, Color::Blue])
        }
    } else {
        if red_count < blue_count {
            Color::Green
        } else {
            pick_color(&[Color::Red, Color::Blue])
        }
    }
}

/// What `some_greed_and_match_opponent` may answer: inside the opening
/// rounds, Blue whenever its Blue-count lead is less than two; after that,
/// the opponent's favourite of Red and Green, or a draw-dependent random
/// colour when the counts tie.
pub open spec fn some_greed_permits(h: Seq<Move>, greedy_rounds: int, c: Color) -> bool {
    if h.len() < greedy_rounds && blue_counts(h).0 - 1 <= blue_counts(h).1 {
        c == Color::Blue
    } else {
        let reds = opponent_count(h, Color::Red);
        let greens = opponent_count(h, Color::Green);
        if reds < greens {
            c == Color::Green
        } else if reds > greens {
            c == Color::Red
        } else {
            true
        }
    }
}

/// Open by collecting Blue options until two ahead on them, then settle on
/// whichever of Red and Green the opponent has favoured, drawing lots on a
/// tie.
fn some_greed_and_match_opponent(last_moves: &[Move], greedy_rounds: usize) -> (c: Color)
    ensures
        some_greed_permits(last_moves@, greedy_rounds as int, c),
{
    if last_moves.len() < greedy_rounds {
        let blue_count = count_blue_options(last_moves);
        if blue_count.0 == 0 || blue_count.0 - 1 <= blue_count.1 {
            return Color::Blue;
        }
    }
    let red_count = count_opponent(last_moves, Color::Red);
    let green_count = count_opponent(last_moves, Color::Green);
    let blue_count = count_opponent(last_moves, Color::Blue);
    if red_count < green_count {
        Color::Green
    } else if red_count > green_count {
        Color::Red
    } else {
        if red_count == blue_count {
            pick_color(&[Color::Red, Color::Green, Color::Blue])
        } else {
            pick_color(&[Color::Red, Color::Green])
        }
    }
}

/// Collect Blue options over the first fifteen rounds, then match the
/// opponent's favourite colour.
pub fn greed_first_15(last_moves: &[Move]) -> (c: Color)
    ensures
        some_greed_permits(last_moves@, 15, c),
{
    some_greed_and_match_opponent(last_moves, 15)
}

} // verus!
