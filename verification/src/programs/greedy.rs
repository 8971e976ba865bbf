//! Programs built around chasing the Blue bonus or the current score.

use crate::chance::pick_color;
use crate::game::{
    blue_counts, count_blue_options, raw_scores, raw_totals_wide, Color, Move,
};
use vstd::prelude::*;

verus! {

/// What `greedy_blue_and_friendly` plays: Green while holding a strict
/// Blue-count lead, Blue otherwise.
pub open spec fn greedy_blue_and_friendly_choice(h: Seq<Move>) -> Color {
    if blue_counts(h).0 > blue_counts(h).1 {
        Color::Green
    } else {
        Color::Blue
    }
}

/// Collect Blue options until strictly ahead on them, then cooperate to
/// cash the bonus in.
pub fn greedy_blue_and_friendly(last_moves: &[Move]) -> (c: Color)
    ensures
        c == greedy_blue_and_friendly_choice(last_moves@),
{
    let blue_count = count_blue_options(last_moves);
    if blue_count.0 > blue_count.1 {
        Color::Green
    } else {
        Color::Blue
    }
}

/// What `greedy_blue_and_evil` plays: Red while holding a strict Blue-count
/// lead, Blue otherwise.
pub open spec fn greedy_blue_and_evil_choice(h: Seq<Move>) -> Color {
    if blue_counts(h).0 > blue_counts(h).1 {
        Color::Red
    } else {
        Color::Blue
    }
}

/// Collect Blue options until strictly ahead on them, then defect to cash
/// the bonus in.
pub fn greedy_blue_and_evil(last_moves: &[Move]) -> (c: Color)
    ensures
        c == greedy_blue_and_evil_choice(last_moves@),
{
    let blue_count = count_blue_options(last_moves);
    if blue_count.0 > blue_count.1 {
        Color::Red
    } else {
        Color::Blue
    }
}

/// What `greedy_if_winning_else_random` may answer: Blue whenever its raw
/// total is strictly ahead, any colour otherwise.
pub open spec fn greedy_if_winning_permits(h: Seq<Move>, c: Color) -> bool {
    raw_scores(h).0 > raw_scores(h).1 ==> c == Color::Blue
}

/// Go for the Blue bonus while strictly ahead on raw points; play at random
/// otherwise.
pub fn greedy_if_winning_else_random(last_moves: &[Move]) -> (c: Color)
    ensures
        greedy_if_winning_permits(last_moves@, c),
{
    let scores = raw_totals_wide(last_moves);
    if scores.0 > scores.1 {
        return Color::Blue;
    }
    pick_color(&[Color::Red, Color::Green, Color::Blue])
}

/// What `greedy_if_2x_score_else_random` may answer: Blue whenever its raw
/// total is at least double the opponent's and the totals differ, any
/// colour otherwise.
pub open spec fn greedy_if_2x_permits(h: Seq<Move>, c: Color) -> bool {
    (raw_scores(h).0 >= 2 * raw_scores(h).1 && raw_scores(h).0 != raw_scores(h).1) ==> c
        == Color::Blue
}

/// Go for the Blue bonus while at least doubling the opponent's raw points;
/// play at random otherwise.
pub fn greedy_if_2x_score_else_random(last_moves: &[Move]) -> (c: Color)
    ensures
        greedy_if_2x_permits(last_moves@, c),
{
    let scores = raw_totals_wide(last_moves);
    if scores.0 >= scores.1 * 2 && scores.0 != scores.1 {
        return Color::Blue;
    }
    pick_color(&[Color::Red, Color::Green, Color::Blue])
}

} // verus!
