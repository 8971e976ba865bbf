use tourney::game::Color;
use tourney::programs::{
    blue, chat_gpt_adaptive, chat_gpt_proactive, chat_gpt_versatile, cooperate_until_defection,
    copy, evil, friendly, greed_first_15, greedy_blue_and_evil, greedy_blue_and_friendly,
    greedy_if_2x_score_else_random, greedy_if_winning_else_random, random, smarter_copy,
    take_back_once_prisoner, tit_for_tat_prisoner, tit_for_two_tats_prisoner, try_to_guess,
};

#[test]
fn friendly_test() {
    assert!(friendly(&[]) == Color::Green);
    assert!(friendly(&[(Color::Green, Color::Red)]) == Color::Green);
}

#[test]
fn evil_test() {
    assert!(evil(&[]) == Color::Red);
    assert!(evil(&[(Color::Red, Color::Green)]) == Color::Red);
}

#[test]
fn greedy_blue_test() {
    assert!(blue(&[]) == Color::Blue);
    assert!(blue(&[(Color::Blue, Color::Red)]) == Color::Blue);
}

#[test]
fn tit_for_tat_prisoner_test() {
    assert!(tit_for_tat_prisoner(&[]) == Color::Green);
    assert!(tit_for_tat_prisoner(&[(Color::Green, Color::Red)]) == Color::Red);
    assert!(tit_for_tat_prisoner(&[(Color::Green, Color::Green)]) == Color::Green);
}

#[test]
fn take_back_prisoner_test() {
    assert!(take_back_once_prisoner(&[]) == Color::Green);
    assert!(take_back_once_prisoner(&[(Color::Green, Color::Green)]) == Color::Green);
    assert!(take_back_once_prisoner(&[(Color::Green, Color::Red)]) == Color::Red);
    assert!(take_back_once_prisoner(&[(Color::Red, Color::Green)]) == Color::Green);
    assert!(take_back_once_prisoner(&[(Color::Red, Color::Red)]) == Color::Green);
}

#[test]
fn tit_for_two_tats_prisoner_test() {
    assert!(tit_for_two_tats_prisoner(&[]) == Color::Green);
    assert!(tit_for_two_tats_prisoner(&[(Color::Green, Color::Red)]) == Color::Green);
    assert!(
        tit_for_two_tats_prisoner(&[(Color::Green, Color::Red), (Color::Green, Color::Red)])
            == Color::Red
    );
}

#[test]
fn greedy_blue_and_evil_test() {
    assert!(greedy_blue_and_evil(&[]) == Color::Blue);
    assert!(greedy_blue_and_evil(&[(Color::Blue, Color::Red)]) == Color::Red);
    assert!(
        greedy_blue_and_evil(&[(Color::Blue, Color::Blue), (Color::Blue, Color::Green)])
            == Color::Red
    );
    assert!(
        greedy_blue_and_evil(&[(Color::Blue, Color::Red), (Color::Red, Color::Blue)])
            == Color::Blue
    );
}

#[test]
fn greedy_blue_and_friendly_test() {
    assert!(greedy_blue_and_friendly(&[]) == Color::Blue);
    assert!(greedy_blue_and_friendly(&[(Color::Blue, Color::Red)]) == Color::Green);
    assert!(
        greedy_blue_and_friendly(&[(Color::Blue, Color::Blue), (Color::Blue, Color::Green)])
            == Color::Green
    );
    assert!(
        greedy_blue_and_friendly(&[(Color::Blue, Color::Red), (Color::Red, Color::Blue)])
            == Color::Blue
    );
}

#[test]
fn chat_gpt_adaptive_test() {
    assert!(chat_gpt_adaptive(&[(Color::Green, Color::Red)]) == Color::Blue);
    assert!(chat_gpt_adaptive(&[(Color::Green, Color::Green)]) == Color::Red);
    assert!(chat_gpt_adaptive(&[(Color::Green, Color::Blue)]) == Color::Green);
}

#[test]
fn chat_gpt_proactive_test() {
    assert!(chat_gpt_proactive(&[(Color::Green, Color::Green)]) == Color::Red);
    assert!(chat_gpt_proactive(&[(Color::Green, Color::Blue)]) == Color::Green);
}

#[test]
fn cooperate_until_defection_test() {
    assert!(cooperate_until_defection(&[(Color::Green, Color::Green)]) == Color::Green);
    assert!(cooperate_until_defection(&[(Color::Green, Color::Red)]) != Color::Green);
}

#[test]
fn greedy_if_winning_else_random_test() {
    assert!(greedy_if_winning_else_random(&[(Color::Red, Color::Green)]) == Color::Blue);
}

#[test]
fn greedy_if_2x_score_else_random_test() {
    assert!(greedy_if_2x_score_else_random(&[(Color::Red, Color::Blue)]) == Color::Blue);
}

#[test]
fn copy_test() {
    assert!(copy(&[(Color::Red, Color::Red)]) == Color::Red);
    assert!(copy(&[(Color::Red, Color::Green)]) == Color::Green);
    assert!(copy(&[(Color::Red, Color::Blue)]) == Color::Blue);
}

#[test]
fn smarter_copy_test() {
    assert!(copy(&[(Color::Red, Color::Red)]) == Color::Red);
    assert!(copy(&[(Color::Red, Color::Green)]) == Color::Green);
    assert!(copy(&[(Color::Red, Color::Blue)]) != Color::Red);
}

#[test]
fn smarter_copy_blue_answer_test() {
    // Blue is answered with Green or Blue, never copied blindly into Red,
    // and a plain colour is copied as it stands.
    let c = smarter_copy(&[(Color::Red, Color::Blue)]);
    assert!(c == Color::Green || c == Color::Blue);
    assert!(smarter_copy(&[(Color::Blue, Color::Red)]) == Color::Red);
}

#[test]
fn random_is_a_colour_test() {
    let c = random(&[]);
    assert!(c == Color::Red || c == Color::Green || c == Color::Blue);
}

#[test]
fn chat_gpt_versatile_counters_or_draws_test() {
    // With the opponent's last option Green, the answer is either the
    // fixed counter Red or a random draw: always one of the three
    // colours.
    let c = chat_gpt_versatile(&[(Color::Green, Color::Green)]);
    assert!(c == Color::Red || c == Color::Green || c == Color::Blue);
}

#[test]
fn try_to_guess_green_leaning_test() {
    // A mostly-Green opponent is answered with Green; a mostly-Red one
    // with Red or Blue.
    assert!(try_to_guess(&[(Color::Red, Color::Green)]) == Color::Green);
    let c = try_to_guess(&[(Color::Red, Color::Red)]);
    assert!(c == Color::Red || c == Color::Blue);
}

#[test]
fn greed_first_15_test() {
    // Inside the greedy opening with no Blue lead the answer is Blue;
    // past it, a clear Red-leaning opponent is matched with Red.
    assert!(greed_first_15(&[]) == Color::Blue);
    let mut long_history = Vec::new();
    for _ in 0..20 {
        long_history.push((Color::Green, Color::Red));
    }
    assert!(greed_first_15(&long_history) == Color::Red);
}
