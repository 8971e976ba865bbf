//! Tournament configuration: the round range, game display flag and worker
//! count, parsed from command-line style arguments.

use crate::chance::pick_in_range;
use vstd::prelude::*;
use vstd::string::StrSliceExecFns;

verus! {

/// The default value for the minimum amount of rounds.
pub const MIN_ROUNDS: u32 = 70;

/// The default value for the maximum amount of rounds.
pub const MAX_ROUNDS: u32 = 100;

/// Whether a character is a decimal digit.
pub open spec fn is_digit_char(c: char) -> bool {
    48 <= (c as u32) <= 57
}

/// Whether a string of characters is one or more decimal digits.
pub open spec fn is_decimal_string(s: Seq<char>) -> bool {
    s.len() > 0 && forall|i: int| 0 <= i < s.len() ==> is_digit_char(#[trigger] s[i])
}

/// The value of a string of decimal digits.
pub open spec fn decimal_value(s: Seq<char>) -> int
    decreases s.len(),
{
    if s.len() == 0 {
        0
    } else {
        10 * decimal_value(s.drop_last()) + ((s.last() as u32) - 48)
    }
}

/// What parsing a string as a `u32` yields: the decimal value of an
/// all-digit string when it fits, nothing otherwise.
pub open spec fn spec_parse_u32(s: Seq<char>) -> Option<u32> {
    if is_decimal_string(s) && decimal_value(s) <= u32::MAX {
        Some(decimal_value(s) as u32)
    } else {
        None
    }
}

/// What parsing a string as a `usize` yields.
pub open spec fn spec_parse_usize(s: Seq<char>) -> Option<usize> {
    if is_decimal_string(s) && decimal_value(s) <= usize::MAX {
        Some(decimal_value(s) as usize)
    } else {
        None
    }
}

/// A string of digits has a non-negative value.
proof fn lemma_decimal_value_nonneg(s: Seq<char>)
    requires
        forall|i: int| 0 <= i < s.len() ==> is_digit_char(#[trigger] s[i]),
    ensures
        decimal_value(s) >= 0,
    decreases s.len(),
{
    if s.len() > 0 {
        lemma_decimal_value_nonneg(s.drop_last());
    }
}

/// Extending a string of digits never lowers its value.
proof fn lemma_decimal_value_take_le(s: Seq<char>, k: int)
    requires
        0 <= k <= s.len(),
        forall|i: int| 0 <= i < s.len() ==> is_digit_char(#[trigger] s[i]),
    ensures
        decimal_value(s.take(k)) <= decimal_value(s),
    decreases s.len() - k,
{
    if k < s.len() {
        assert(s.take(k + 1).drop_last() =~= s.take(k));
        assert(forall|i: int| 0 <= i < s.take(k).len() ==> is_digit_char(#[trigger] s.take(k)[i]));
        lemma_decimal_value_nonneg(s.take(k));
        lemma_decimal_value_take_le(s, k + 1);
    } else {
        assert(s.take(k) =~= s);
    }
}

/// Parse a string of decimal digits as a `u64`; anything else, or a value
/// beyond `u64`, yields nothing.
fn parse_u64(s: &str) -> (r: Option<u64>)
    ensures
        r is Some <==> is_decimal_string(s@) && decimal_value(s@) <= u64::MAX,
        r is Some ==> r->0 == decimal_value(s@),
{
    let len = s.unicode_len();
    if len == 0 {
        return None;
    }
    let mut value: u64 = 0;
    let mut i: usize = 0;
    while i < len
        invariant
            len == s@.len(),
            0 <= i <= len,
            forall|k: int| 0 <= k < i ==> is_digit_char(#[trigger] s@[k]),
            value == decimal_value(s@.take(i as int)),
        decreases len - i,
    {
        let c = s.get_char(i);
        let d = c as u32;
        if d < 48 || d > 57 {
            return None;
        }
        proof {
            assert(s@.take(i + 1).drop_last() =~= s@.take(i as int));
            assert(s@.take(i + 1).last() == s@[i as int]);
        }
        if value > 1_844_674_407_370_955_161u64 || (value == 1_844_674_407_370_955_161u64 && d
            > 53) {
            // The next digit would push the value beyond `u64`; once there,
            // more digits can only grow it further.
            proof {
                if is_decimal_string(s@) {
                    lemma_decimal_value_take_le(s@, i + 1);
                }
            }
            return None;
        }
        value = value * 10 + ((d - 48) as u64);
        i = i + 1;
    }
    proof {
        assert(s@.take(len as int) =~= s@);
    }
    Some(value)
}

/// Parse a string as a `u32`, as `spec_parse_u32` says.
fn parse_u32_str(s: &str) -> (r: Option<u32>)
    ensures
        r == spec_parse_u32(s@),
{
    match parse_u64(s) {
        Some(v) => {
            if v <= 0xffff_ffffu64 {
                Some(v as u32)
            } else {
                None
            }
        },
        None => {
            proof {
                if is_decimal_string(s@) {
                    lemma_decimal_value_nonneg(s@);
                }
            }
            None
        },
    }
}

/// Parse a string as a `usize`, as `spec_parse_usize` says.
fn parse_usize_str(s: &str) -> (r: Option<usize>)
    ensures
        r == spec_parse_usize(s@),
{
    match parse_u64(s) {
        Some(v) => {
            if v <= usize::MAX as u64 {
                Some(v as usize)
            } else {
                None
            }
        },
        None => {
            proof {
                if is_decimal_string(s@) {
                    lemma_decimal_value_nonneg(s@);
                }
            }
            None
        },
    }
}

/// Whether two strings hold the same characters.
fn str_eq(a: &str, b: &str) -> (r: bool)
    ensures
        r <==> a@ == b@,
{
    let la = a.unicode_len();
    let lb = b.unicode_len();
    if la != lb {
        return false;
    }
    let mut i: usize = 0;
    while i < la
        invariant
            la == a@.len(),
            la == b@.len(),
            0 <= i <= la,
            forall|k: int| 0 <= k < i ==> a@[k] == b@[k],
        decreases la - i,
    {
        if a.get_char(i) != b.get_char(i) {
            return false;
        }
        i = i + 1;
    }
    proof {
        assert(a@ =~= b@);
    }
    true
}

/// The argument values gathered while parsing, zero standing for "not yet
/// given".
pub struct ParsedArgs {
    /// The value of `--min`.
    pub min: u32,
    /// The value of `--max`.
    pub max: u32,
    /// Whether `--games` was given.
    pub games: bool,
    /// The value of `--threads`.
    pub threads: usize,
}

/// The views of a sequence of strings.
pub open spec fn views_of(args: Seq<String>) -> Seq<Seq<char>> {
    args.map_values(|s: String| s@)
}

/// What parsing the arguments from position `i` onward yields: the
/// gathered values, or the first error. `--min` and `--max` take a
/// positive number, `--games` stands alone, `--threads` takes a number
/// from 1 to 64; no argument may be repeated and nothing else is accepted.
pub open spec fn spec_parse_args(args: Seq<Seq<char>>, i: int, st: ParsedArgs) -> Result<
    ParsedArgs,
    Seq<char>,
>
    decreases args.len() - i,
{
    if i >= args.len() {
        Ok(st)
    } else if args[i] == "--min"@ {
        if st.min != 0 {
            Err("Duplicate argument: --min"@)
        } else if i + 1 < args.len() && spec_parse_u32(args[i + 1]) is Some {
            if spec_parse_u32(args[i + 1])->0 > 0 {
                spec_parse_args(
                    args,
                    i + 2,
                    (ParsedArgs { min: spec_parse_u32(args[i + 1])->0, ..st }),
                )
            } else {
                Err("Value must be greater than 0 for argument: --min"@)
            }
        } else {
            Err("Incorrect value for argument: --min"@)
        }
    } else if args[i] == "--max"@ {
        if st.max != 0 {
            Err("Duplicate argument: --max"@)
        } else if i + 1 < args.len() && spec_parse_u32(args[i + 1]) is Some {
            if spec_parse_u32(args[i + 1])->0 > 0 {
                spec_parse_args(
                    args,
                    i + 2,
                    (ParsedArgs { max: spec_parse_u32(args[i + 1])->0, ..st }),
                )
            } else {
                Err("Value must be greater than 0 for argument: --max"@)
            }
        } else {
            Err("Incorrect value for argument: --max"@)
        }
    } else if args[i] == "--games"@ {
        if st.games {
            Err("Duplicate argument: --games"@)
        } else {
            spec_parse_args(args, i + 1, (ParsedArgs { games: true, ..st }))
        }
    } else if args[i] == "--threads"@ {
        if st.threads != 0 {
            Err("Duplicate argument: --threads"@)
        } else if i + 1 < args.len() && spec_parse_usize(args[i + 1]) is Some {
            if spec_parse_usize(args[i + 1])->0 > 64 {
                Err("Value must be less than or equal to 64 for argument: --threads"@)
            } else if spec_parse_usize(args[i + 1])->0 == 0 {
                Err("Value must be greater than 0 for argument: --threads"@)
            } else {
                spec_parse_args(
                    args,
                    i + 2,
                    (ParsedArgs { threads: spec_parse_usize(args[i + 1])->0, ..st }),
                )
            }
        } else {
            Err("Incorrect value for argument: --threads"@)
        }
    } else {
        Err("Invalid arguments"@)
    }
}

/// The lower end of the round range after defaults: both ends missing
/// fall back to the defaults, one missing end copies the other.
pub open spec fn resolved_min(st: ParsedArgs) -> u32 {
    if st.min == 0 && st.max == 0 {
        MIN_ROUNDS
    } else if st.min == 0 {
        st.max
    } else {
        st.min
    }
}

/// The upper end of the round range after defaults.
pub open spec fn resolved_max(st: ParsedArgs) -> u32 {
    if st.min == 0 && st.max == 0 {
        MAX_ROUNDS
    } else if st.max == 0 {
        st.min
    } else {
        st.max
    }
}

/// The worker count after its default.
pub open spec fn resolved_threads(st: ParsedArgs) -> usize {
    if st.threads == 0 {
        20
    } else {
        st.threads
    }
}

/// What a configuration built from parsed arguments satisfies: rounds
/// drawn from the resolved range, flags and workers as given.
pub open spec fn config_matches(c: Config, st: ParsedArgs) -> bool {
    &&& resolved_min(st) <= c.spec_rounds() <= resolved_max(st)
    &&& c.spec_show_games() == st.games
    &&& c.spec_threads() == resolved_threads(st)
}

/// Holds configurations for the tournament: the round count drawn for it,
/// whether each game's outcome is displayed, and how many workers run the
/// games.
#[derive(Debug)]
pub struct Config {
    rounds: u32,
    show_games: bool,
    threads: usize,
}

impl Config {
    /// The configured amount of rounds.
    pub closed spec fn spec_rounds(self) -> u32 {
        self.rounds
    }

    /// Whether each game's outcome is displayed.
    pub closed spec fn spec_show_games(self) -> bool {
        self.show_games
    }

    /// How many workers run the games.
    pub closed spec fn spec_threads(self) -> usize {
        self.threads
    }

    /// Parse command line arguments into a configuration.
    fn parse_args(args: &[String]) -> (r: Result<Config, &'static str>)
        ensures
            ({
                let outcome = spec_parse_args(
                    views_of(args@),
                    1,
                    (ParsedArgs { min: 0, max: 0, games: false, threads: 0 }),
                );
                match outcome {
                    Ok(st) => {
                        if resolved_min(st) <= resolved_max(st) {
                            r is Ok && config_matches(r->Ok_0, st)
                        } else {
                            r is Err && r->Err_0@ == "max rounds cannot be less than min rounds"@
                        }
                    },
                    Err(msg) => r is Err && r->Err_0@ == msg,
                }
            }),
    {
        let ghost views = views_of(args@);
        let ghost init = ParsedArgs { min: 0, max: 0, games: false, threads: 0 };
        let mut min: u32 = 0;
        let mut max: u32 = 0;
        let mut games: bool = false;
        let mut threads: usize = 0;
        let mut i: usize = 1;
        while i < args.len()
            invariant
                views == views_of(args@),
                init == (ParsedArgs { min: 0u32, max: 0u32, games: false, threads: 0usize }),
                1 <= i,
                i <= args@.len() || i <= 1,
                spec_parse_args(views, 1, init) == spec_parse_args(
                    views,
                    i as int,
                    (ParsedArgs { min, max, games, threads }),
                ),
            decreases args@.len() - i,
        {
            let arg: &String = &args[i];
            if str_eq(arg.as_str(), "--min") {
                if min != 0 {
                    return Err("Duplicate argument: --min");
                }
                if i + 1 >= args.len() {
                    return Err("Incorrect value for argument: --min");
                }
                match parse_u32_str(args[i + 1].as_str()) {
                    None => {
                        return Err("Incorrect value for argument: --min");
                    },
                    Some(v) => {
                        if v == 0 {
                            return Err("Value must be greater than 0 for argument: --min");
                        }
                        min = v;
                        i = i + 2;
                    },
                }
            } else if str_eq(arg.as_str(), "--max") {
                if max != 0 {
                    return Err("Duplicate argument: --max");
                }
                if i + 1 >= args.len() {
                    return Err("Incorrect value for argument: --max");
                }
                match parse_u32_str(args[i + 1].as_str()) {
                    None => {
                        return Err("Incorrect value for argument: --max");
                    },
                    Some(v) => {
                        if v == 0 {
                            return Err("Value must be greater than 0 for argument: --max");
                        }
                        max = v;
                        i = i + 2;
                    },
                }
            } else if str_eq(arg.as_str(), "--games") {
                if games {
                    return Err("Duplicate argument: --games");
                }
                games = true;
                i = i + 1;
            } else if str_eq(arg.as_str(), "--threads") {
                if threads != 0 {
                    return Err("Duplicate argument: --threads");
                }
                if i + 1 >= args.len() {
                    return Err("Incorrect value for argument: --threads");
                }
                match parse_usize_str(args[i + 1].as_str()) {
                    None => {
                        return Err("Incorrect value for argument: --threads");
                    },
                    Some(v) => {
                        if v > 64 {
                            return Err(
                                "Value must be less than or equal to 64 for argument: --threads",
                            );
                        }
                        if v == 0 {
                            return Err("Value must be greater than 0 for argument: --threads");
                        }
                        threads = v;
                        i = i + 2;
                    },
                }
            } else {
                return Err("Invalid arguments");
            }
        }
        if min == 0 && max == 0 {
            min = MIN_ROUNDS;
            max = MAX_ROUNDS;
        } else if min == 0 {
            min = max;
        } else if max == 0 {
            max = min;
        }
        if threads == 0 {
            threads = 20;
        }
        if max < min {
            return Err("max rounds cannot be less than min rounds");
        }
        Ok(Config { rounds: random_rounds(min, max), show_games: games, threads })
    }

    /// Try to create a new `Config` from command line arguments: `--min`
    /// and `--max` bound the rounds, `--games` displays each game,
    /// `--threads` sets the worker count; fewer than two arguments give
    /// the default configuration.
    pub fn new(args: &[String]) -> (r: Result<Config, &'static str>)
        ensures
            args@.len() < 2 ==> (r is Ok && MIN_ROUNDS <= r->Ok_0.spec_rounds() <= MAX_ROUNDS
                && !r->Ok_0.spec_show_games() && r->Ok_0.spec_threads() == 20),
            args@.len() >= 2 ==> ({
                let outcome = spec_parse_args(
                    views_of(args@),
                    1,
                    (ParsedArgs { min: 0, max: 0, games: false, threads: 0 }),
                );
                match outcome {
                    Ok(st) => {
                        if resolved_min(st) <= resolved_max(st) {
                            r is Ok && config_matches(r->Ok_0, st)
                        } else {
                            r is Err && r->Err_0@ == "max rounds cannot be less than min rounds"@
                        }
                    },
                    Err(msg) => r is Err && r->Err_0@ == msg,
                }
            }),
    {
        if args.len() < 2 {
            return Ok(Config::default());
        }
        Config::parse_args(args)
    }

    /// Create a new `Config` with default values: rounds drawn from the
    /// default range, games not displayed, twenty workers.
    pub fn default() -> (c: Config)
        ensures
            MIN_ROUNDS <= c.spec_rounds() <= MAX_ROUNDS,
            !c.spec_show_games(),
            c.spec_threads() == 20,
    {
        Config { rounds: random_rounds(MIN_ROUNDS, MAX_ROUNDS), show_games: false, threads: 20 }
    }

    /// Get the configured amount of rounds.
    pub fn rounds(&self) -> (r: u32)
        ensures
            r == self.spec_rounds(),
    {
        self.rounds
    }

    /// Whether each game's outcome is to be displayed.
    pub fn show_games(&self) -> (r: bool)
        ensures
            r == self.spec_show_games(),
    {
        self.show_games
    }

    /// How many workers are to run the games.
    pub fn threads(&self) -> (r: usize)
        ensures
            r == self.spec_threads(),
    {
        self.threads
    }
}

/// Uniformly randomly select an amount of rounds between `min` and `max`
/// (inclusive); the range must be non-empty and start at one round or
/// more.
pub fn random_rounds(min: u32, max: u32) -> (r: u32)
    requires
        1 <= min,
        min <= max,
    ensures
        min <= r <= max,
{
    pick_in_range(min, max)
}

} // verus!
