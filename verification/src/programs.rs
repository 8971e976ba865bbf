//! The catalog of player programs, and the `Program` value that binds any
//! of them to a player.

pub mod chat_gpt;
pub mod greedy;
pub mod prisoners;
pub mod simple;
pub mod strategic;

pub use chat_gpt::{chat_gpt_adaptive, chat_gpt_proactive, chat_gpt_versatile};
pub use greedy::{
    greedy_blue_and_evil, greedy_blue_and_friendly, greedy_if_2x_score_else_random,
    greedy_if_winning_else_random,
};
pub use prisoners::{take_back_once_prisoner, tit_for_tat_prisoner, tit_for_two_tats_prisoner};
pub use simple::{blue, cooperate_until_defection, copy, evil, friendly, random, smarter_copy};
pub use strategic::{greed_first_15, try_to_guess};

use crate::game::{always_plays, Color, Move, Strategy};
use vstd::prelude::*;

verus! {

/// One program of the catalog, as a value: the strategy a tournament
/// player is bound to.
#[derive(PartialEq, Eq, Structural, Clone, Copy, Debug)]
pub enum Program {
    /// Defect once, right after cooperating while the opponent defected.
    TakeBackOnce,
    /// Always cooperate.
    Friendly,
    /// Always defect.
    Evil,
    /// Always go for the Blue bonus.
    AlwaysBlue,
    /// Defect exactly when the opponent just defected.
    TitForTat,
    /// Defect exactly when the opponent defected twice running.
    TitForTwoTats,
    /// Chase the Blue bonus, cooperating while ahead on it.
    GreedyBlueAndFriendly,
    /// Chase the Blue bonus, defecting while ahead on it.
    GreedyBlueAndEvil,
    /// Answer the opponent's most played colour.
    TryToGuess,
    /// Play a uniformly random colour.
    Random,
    /// Counter the opponent's previous option.
    ChatGptAdaptive,
    /// Exploit an opponent that leans Green.
    ChatGptProactive,
    /// Half the time at random, else counter the previous option.
    ChatGptVersatile,
    /// Cooperate until the opponent first defects.
    CooperateUntilDefection,
    /// Go for the Blue bonus while strictly ahead on raw points.
    GreedyIfWinning,
    /// Go for the Blue bonus while doubling the opponent's raw points.
    GreedyIf2xScore,
    /// Copy the opponent's previous option.
    CopyOpponent,
    /// Copy the opponent's previous option, except Blue.
    SmarterCopy,
    /// Collect Blue early, then match the opponent's favourite.
    GreedFirst15,
}

impl Strategy for Program {
    open spec fn permits(self, last_moves: Seq<Move>, choice: Color) -> bool {
        match self {
            Program::TakeBackOnce => choice == prisoners::take_back_once_choice(last_moves),
            Program::Friendly => choice == Color::Green,
            Program::Evil => choice == Color::Red,
            Program::AlwaysBlue => choice == Color::Blue,
            Program::TitForTat => choice == prisoners::tit_for_tat_choice(last_moves),
            Program::TitForTwoTats => choice == prisoners::tit_for_two_tats_choice(last_moves),
            Program::GreedyBlueAndFriendly => choice == greedy::greedy_blue_and_friendly_choice(
                last_moves,
            ),
            Program::GreedyBlueAndEvil => choice == greedy::greedy_blue_and_evil_choice(last_moves),
            Program::TryToGuess => strategic::try_to_guess_permits(last_moves, choice),
            Program::Random => true,
            Program::ChatGptAdaptive => chat_gpt::chat_gpt_adaptive_permits(last_moves, choice),
            Program::ChatGptProactive => chat_gpt::chat_gpt_proactive_permits(last_moves, choice),
            Program::ChatGptVersatile => true,
            Program::CooperateUntilDefection => simple::cooperate_until_defection_permits(
                last_moves,
                choice,
            ),
            Program::GreedyIfWinning => greedy::greedy_if_winning_permits(last_moves, choice),
            Program::GreedyIf2xScore => greedy::greedy_if_2x_permits(last_moves, choice),
            Program::CopyOpponent => simple::copy_permits(last_moves, choice),
            Program::SmarterCopy => simple::smarter_copy_permits(last_moves, choice),
            Program::GreedFirst15 => strategic::some_greed_permits(last_moves, 15, choice),
        }
    }

    fn next(&self, last_moves: &[Move]) -> (c: Color) {
        match self {
            Program::TakeBackOnce => prisoners::take_back_once_prisoner(last_moves),
            Program::Friendly => simple::friendly(last_moves),
            Program::Evil => simple::evil(last_moves),
            Program::AlwaysBlue => simple::blue(last_moves),
            Program::TitForTat => prisoners::tit_for_tat_prisoner(last_moves),
            Program::TitForTwoTats => prisoners::tit_for_two_tats_prisoner(last_moves),
            Program::GreedyBlueAndFriendly => greedy::greedy_blue_and_friendly(last_moves),
            Program::GreedyBlueAndEvil => greedy::greedy_blue_and_evil(last_moves),
            Program::TryToGuess => strategic::try_to_guess(last_moves),
            Program::Random => simple::random(last_moves),
            Program::ChatGptAdaptive => chat_gpt::chat_gpt_adaptive(last_moves),
            Program::ChatGptProactive => chat_gpt::chat_gpt_proactive(last_moves),
            Program::ChatGptVersatile => chat_gpt::chat_gpt_versatile(last_moves),
            Program::CooperateUntilDefection => simple::cooperate_until_defection(last_moves),
            Program::GreedyIfWinning => greedy::greedy_if_winning_else_random(last_moves),
            Program::GreedyIf2xScore => greedy::greedy_if_2x_score_else_random(last_moves),
            Program::CopyOpponent => simple::copy(last_moves),
            Program::SmarterCopy => simple::smarter_copy(last_moves),
            Program::GreedFirst15 => strategic::greed_first_15(last_moves),
        }
    }
}

/// The catalog's fixed-colour programs each always play their one colour,
/// whatever the history.
pub proof fn lemma_constant_catalog_programs()
    ensures
        always_plays(Program::Friendly, Color::Green),
        always_plays(Program::Evil, Color::Red),
        always_plays(Program::AlwaysBlue, Color::Blue),
{
}

} // verus!
