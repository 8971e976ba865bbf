use tourney::config::{random_rounds, Config, MAX_ROUNDS, MIN_ROUNDS};

#[test]
fn config_defaults_test() {
    let config = Config::new(&[String::from("tourney")]).unwrap();
    assert!(MIN_ROUNDS <= config.rounds() && config.rounds() <= MAX_ROUNDS);
    assert!(!config.show_games());
    assert_eq!(config.threads(), 20);
}

#[test]
fn parsing_test() {
    let error = Config::new(&[
        String::from("tourney"),
        String::from("--threads"),
        String::from("6"),
        String::from("--threads"),
    ])
    .expect_err("parsing test");
    assert_eq!(error, "Duplicate argument: --threads");
}

#[test]
fn parsing_min_max_test() {
    let config = Config::new(&[
        String::from("tourney"),
        String::from("--min"),
        String::from("10"),
        String::from("--max"),
        String::from("12"),
        String::from("--games"),
        String::from("--threads"),
        String::from("3"),
    ])
    .unwrap();
    assert!(10 <= config.rounds() && config.rounds() <= 12);
    assert!(config.show_games());
    assert_eq!(config.threads(), 3);
}

#[test]
fn parsing_min_only_test() {
    let config =
        Config::new(&[String::from("tourney"), String::from("--min"), String::from("10")])
            .unwrap();
    assert_eq!(config.rounds(), 10);
}

#[test]
fn parsing_max_only_test() {
    let config =
        Config::new(&[String::from("tourney"), String::from("--max"), String::from("5")]).unwrap();
    assert_eq!(config.rounds(), 5);
}

#[test]
fn parsing_errors_test() {
    let args = |rest: &[&str]| {
        let mut v = vec![String::from("tourney")];
        for a in rest {
            v.push(String::from(*a));
        }
        v
    };
    assert_eq!(
        Config::new(&args(&["--min", "x"])).expect_err(""),
        "Incorrect value for argument: --min"
    );
    assert_eq!(
        Config::new(&args(&["--min"])).expect_err(""),
        "Incorrect value for argument: --min"
    );
    assert_eq!(
        Config::new(&args(&["--min", "0"])).expect_err(""),
        "Value must be greater than 0 for argument: --min"
    );
    assert_eq!(
        Config::new(&args(&["--min", "4", "--min", "5"])).expect_err(""),
        "Duplicate argument: --min"
    );
    assert_eq!(
        Config::new(&args(&["--max", "0"])).expect_err(""),
        "Value must be greater than 0 for argument: --max"
    );
    assert_eq!(
        Config::new(&args(&["--max", "4", "--max", "5"])).expect_err(""),
        "Duplicate argument: --max"
    );
    assert_eq!(
        Config::new(&args(&["--max", ""])).expect_err(""),
        "Incorrect value for argument: --max"
    );
    assert_eq!(
        Config::new(&args(&["--games", "--games"])).expect_err(""),
        "Duplicate argument: --games"
    );
    assert_eq!(
        Config::new(&args(&["--threads", "65"])).expect_err(""),
        "Value must be less than or equal to 64 for argument: --threads"
    );
    assert_eq!(
        Config::new(&args(&["--threads", "0"])).expect_err(""),
        "Value must be greater than 0 for argument: --threads"
    );
    assert_eq!(
        Config::new(&args(&["--threads", "six"])).expect_err(""),
        "Incorrect value for argument: --threads"
    );
    assert_eq!(Config::new(&args(&["--fast"])).expect_err(""), "Invalid arguments");
    assert_eq!(
        Config::new(&args(&["--min", "9", "--max", "4"])).expect_err(""),
        "max rounds cannot be less than min rounds"
    );
}

#[test]
fn parsing_large_values_test() {
    // 4294967295 is the largest value --min takes; one more no longer
    // parses as a 32-bit number.
    let big = Config::new(&[
        String::from("tourney"),
        String::from("--min"),
        String::from("4294967295"),
    ])
    .unwrap();
    assert_eq!(big.rounds(), u32::MAX);
    assert_eq!(
        Config::new(&[
            String::from("tourney"),
            String::from("--min"),
            String::from("4294967296"),
        ])
        .expect_err(""),
        "Incorrect value for argument: --min"
    );
}

#[test]
fn random_rounds_test_2() {
    assert!(random_rounds(10, 10) == 10);
    assert!(random_rounds(10, 11) < 12);
}
