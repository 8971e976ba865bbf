use tourney::game::{calculate_scores, play, Color, Move, Player, Strategy};
use tourney::programs::Program;

#[derive(Clone, Copy)]
struct TestStrategy;

impl Strategy for TestStrategy {
    fn next(&self, last_moves: &[Move]) -> Color {
        if let Some(last_move) = last_moves.last() {
            if last_move.0 == Color::Green {
                return Color::Red;
            }
            return Color::Green;
        }
        Color::Blue
    }
}

#[test]
fn make_move_test() {
    assert!(Player::new(TestStrategy).make_move(&[]) == Color::Blue);
}

#[test]
fn get_player_name_test() {
    let p = Player::with_name("name", TestStrategy);
    assert_eq!(p.get_name(), "name");
    assert_ne!(p.get_name(), Player::new(TestStrategy).get_name());
    assert_eq!(Player::new(TestStrategy).set_name("name").get_name(), p.get_name());
}

#[test]
fn simple_play_test() {
    let p_1 = Player::with_name("Test", TestStrategy);
    let p_2 = Player::new(Program::GreedyBlueAndFriendly);

    assert_eq!(play(p_1.clone(), p_2.clone(), 10), (21, 14));
    assert_eq!(play(p_1.clone(), p_1.clone(), 100), (149, 149));
    assert_ne!(p_1.get_name(), p_2.get_name());
}

#[test]
fn score_calculation_test() {
    assert_eq!(calculate_scores(&[]), (0, 0));
    assert_eq!(
        calculate_scores(&[(Color::Green, Color::Green), (Color::Blue, Color::Red)]),
        (1, 3)
    );
}

#[test]
fn zero_rounds_play_test() {
    let p_1 = Player::new(Program::Evil);
    let p_2 = Player::new(Program::TakeBackOnce);
    assert_eq!(play(p_1.clone(), p_2.clone(), 0), (0, 0));
    assert_eq!(play(Player::new(TestStrategy), p_1, 0), (0, 0));
}

#[test]
fn always_green_pair_play_test() {
    let p = Player::new(Program::Friendly);
    assert_eq!(play(p.clone(), p.clone(), 7), (14, 14));
    assert_eq!(play(p.clone(), p.clone(), 100), (200, 200));
}

#[test]
fn always_red_pair_play_test() {
    let p = Player::new(Program::Evil);
    assert_eq!(play(p.clone(), p.clone(), 7), (7, 7));
    assert_eq!(play(p.clone(), p.clone(), 1), (1, 1));
}

#[test]
fn red_versus_green_play_test() {
    let red = Player::new(Program::Evil);
    let green = Player::new(Program::Friendly);
    assert_eq!(play(red.clone(), green.clone(), 7), (21, 0));
    assert_eq!(play(green, red, 7), (0, 21));
}

#[test]
fn blue_pair_play_test() {
    let p = Player::new(Program::AlwaysBlue);
    assert_eq!(play(p.clone(), p.clone(), 9), (0, 0));
}

#[test]
fn blue_bonus_doubles_play_test() {
    // Greedy-blue-and-friendly against always-Green over two rounds: the
    // history is (Blue, Green) then (Red, Green), raw scores (2, 1) with
    // one Blue option against none, so the first side's total is doubled.
    let greedy = Player::new(Program::GreedyBlueAndEvil);
    let green = Player::new(Program::Friendly);
    let raw = calculate_scores(&[(Color::Blue, Color::Green), (Color::Red, Color::Green)]);
    assert_eq!(raw, (2, 1));
    assert_eq!(play(greedy, green, 2), (2 * raw.0, raw.1));
}

#[test]
fn evil_versus_take_back_once_trace_test() {
    // Ten rounds of always-Red against take-back-once. The first round is
    // (Red, Green) for 3-0; from then on the opponent's one-round
    // retaliation alternates (Red, Red) for 1-1 with (Red, Green) for
    // 3-0. Even rounds are (Red, Green), odd rounds (Red, Red), so the
    // totals are 5*3 + 5*1 = 20 against 5*0 + 5*1 = 5, and no Blue means
    // no doubling.
    let evil = Player::new(Program::Evil);
    let take_back = Player::new(Program::TakeBackOnce);
    assert_eq!(play(evil, take_back, 10), (20, 5));
}
