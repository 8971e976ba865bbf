use tourney::config::Config;
use tourney::game::Player;
use tourney::programs::Program;
use tourney::scores::{rank_standings, Scoreboard};
use tourney::tournament::run;

#[test]
fn config_test() {
    let config_1 =
        Config::new(&[String::from("tourney"), String::from("--min"), String::from("10")])
            .unwrap();
    let config_2 =
        Config::new(&[String::from("tourney"), String::from("--max"), String::from("5")]).unwrap();

    let players = vec![
        Player::with_name("1", Program::GreedyBlueAndEvil),
        Player::with_name("2", Program::TakeBackOnce),
    ];

    // Every unordered pairing is played, self-pairings included. Take-back
    // -once against itself cooperates throughout and banks 2 points a
    // round from its self-match on top of its 5 (or 3) from the cross
    // match, while greedy-blue against itself plays Blue throughout for
    // nothing; the cross match ends 36-5 over ten rounds and 14-3 over
    // five.
    let scores_1 = run(&config_1, &players).unwrap();
    let scores_2 = run(&config_2, &players).unwrap();

    assert_eq!(scores_1.len(), 2);
    assert_eq!((scores_1[0].points, scores_1[0].name.as_str()), (45, "2"));
    assert_eq!((scores_1[1].points, scores_1[1].name.as_str()), (36, "1"));
    assert_eq!(scores_2.len(), 2);
    assert_eq!((scores_2[0].points, scores_2[0].name.as_str()), (23, "2"));
    assert_eq!((scores_2[1].points, scores_2[1].name.as_str()), (14, "1"));
}

#[test]
fn init_scores_test() {
    let scores = Scoreboard::new(10);
    assert_eq!(scores.len(), 10);
    for p in 0..10 {
        assert_eq!(scores.score(p), (0, 0));
    }
}

#[test]
fn too_few_players_test() {
    let config = Config::default();
    let no_players: Vec<Player<Program>> = Vec::new();
    assert_eq!(run(&config, &no_players).expect_err(""), "Too few players");
    let one_player = vec![Player::with_name("only", Program::Friendly)];
    assert_eq!(run(&config, &one_player).expect_err(""), "Too few players");
}

#[test]
fn aggregation_any_order_test() {
    // The same three match results, recorded in two different orders,
    // leave identical cells on the board.
    let results = [(0usize, 1usize, (5i32, 3i32)), (1, 2, (2, 2)), (0, 2, (1, 4))];
    let mut forward = Scoreboard::new(3);
    for &(i, j, s) in results.iter() {
        forward.record_match(i, j, s);
    }
    let mut backward = Scoreboard::new(3);
    for &(i, j, s) in results.iter().rev() {
        backward.record_match(i, j, s);
    }
    for p in 0..3 {
        assert_eq!(forward.score(p), backward.score(p));
    }
    assert_eq!(forward.score(0), (6, 0));
    assert_eq!(forward.score(1), (5, -1));
    assert_eq!(forward.score(2), (6, 1));
}

#[test]
fn self_pairing_counts_both_sides_test() {
    // A self-pairing credits both halves of the result to the one player,
    // and its win and loss cancel in the tally.
    let mut board = Scoreboard::new(2);
    board.record_match(1, 1, (7, 3));
    assert_eq!(board.score(0), (0, 0));
    assert_eq!(board.score(1), (10, 0));
}

#[test]
fn ranking_stable_order_test() {
    // Two players with identical totals are reported in their input
    // order.
    let players = vec![
        Player::with_name("first", Program::Friendly),
        Player::with_name("second", Program::Friendly),
    ];
    let board = Scoreboard::new(2);
    let standings = rank_standings(&board, &players);
    assert_eq!(standings.len(), 2);
    assert_eq!(standings[0].name.as_str(), "first");
    assert_eq!(standings[1].name.as_str(), "second");

    // The same happens at the end of a whole tournament of two identical
    // programs.
    let config =
        Config::new(&[String::from("tourney"), String::from("--min"), String::from("10")])
            .unwrap();
    let standings = run(&config, &players).unwrap();
    assert_eq!(standings[0].name.as_str(), "first");
    assert_eq!(standings[0].points, standings[1].points);
    assert_eq!(standings[1].name.as_str(), "second");
}

#[test]
fn ranking_orders_by_points_test() {
    let mut board = Scoreboard::new(3);
    board.record_match(0, 2, (4, 9));
    let players = vec![
        Player::with_name("a", Program::Friendly),
        Player::with_name("b", Program::Friendly),
        Player::with_name("c", Program::Friendly),
    ];
    let standings = rank_standings(&board, &players);
    assert_eq!(standings[0].name.as_str(), "c");
    assert_eq!(standings[0].points, 9);
    assert_eq!(standings[0].tally, 1);
    assert_eq!(standings[1].name.as_str(), "a");
    assert_eq!(standings[1].points, 4);
    assert_eq!(standings[1].tally, -1);
    assert_eq!(standings[2].name.as_str(), "b");
    assert_eq!(standings[2].points, 0);
}
