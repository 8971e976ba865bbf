//! The core of the iterated three-colour game: colours, moves, players,
//! strategies, and the engine that plays one match and scores it.

use vstd::prelude::*;

verus! {

/// One colour option is picked by each player every round.
#[derive(PartialEq, Eq, Structural, Clone, Copy, Debug)]
pub enum Color {
    /// Non-cooperative.
    Red,
    /// Cooperative.
    Green,
    /// The side that played strictly more Blue options than the other
    /// gets its score doubled at the end of the match.
    Blue,
}

/// A move is a pair of the two players' colour options for one round,
/// the observing player's own option first.
pub type Move = (Color, Color);

/// The most rounds a match may be asked for: with the payoff table below a
/// score can reach 3 points a round and be doubled once, which must stay
/// within `i32`.
pub const MAX_PLAYABLE_ROUNDS: u32 = 357_913_941;

/// The points the first player of a move earns for that round.
pub open spec fn payoff_first(m: Move) -> int {
    match m {
        (Color::Red, Color::Red) => 1,
        (Color::Red, Color::Green) => 3,
        (Color::Green, Color::Red) => 0,
        (Color::Green, Color::Green) => 2,
        (Color::Blue, Color::Blue) => 0,
        (Color::Blue, _) => -1,
        (_, Color::Blue) => 1,
    }
}

/// The points the second player of a move earns for that round.
pub open spec fn payoff_second(m: Move) -> int {
    payoff_first((m.1, m.0))
}

/// Both players' raw point totals over a history, before the Blue bonus.
pub open spec fn raw_scores(h: Seq<Move>) -> (int, int)
    decreases h.len(),
{
    if h.len() == 0 {
        (0, 0)
    } else {
        let prev = raw_scores(h.drop_last());
        (prev.0 + payoff_first(h.last()), prev.1 + payoff_second(h.last()))
    }
}

/// How many Blue options each side played over a history.
pub open spec fn blue_counts(h: Seq<Move>) -> (int, int)
    decreases h.len(),
{
    if h.len() == 0 {
        (0, 0)
    } else {
        let prev = blue_counts(h.drop_last());
        (
            prev.0 + if h.last().0 is Blue { 1int } else { 0int },
            prev.1 + if h.last().1 is Blue { 1int } else { 0int },
        )
    }
}

/// The final score pair of a match: the raw totals, with the side that played
/// strictly more Blue options than the other having its total doubled.
pub open spec fn final_scores(h: Seq<Move>) -> (int, int) {
    let s = raw_scores(h);
    let b = blue_counts(h);
    if b.0 > b.1 {
        (2 * s.0, s.1)
    } else if b.1 > b.0 {
        (s.0, 2 * s.1)
    } else {
        s
    }
}

/// A history as the second player sees it: every move reoriented so that
/// the second player's own option comes first.
pub open spec fn swap_history(h: Seq<Move>) -> Seq<Move> {
    h.map_values(|m: Move| (m.1, m.0))
}

/// The contract every player program implements: from the rounds played so
/// far (own option first in each move) to the colour played next.
///
/// `permits` delimits which colours the program may return for a history;
/// a deterministic program permits exactly one. Randomness is allowed, so a
/// call of `next` may return any permitted colour.
pub trait Strategy: Sized {
    /// Which colours the program may return for a given history. A
    /// program that overrides nothing promises nothing: any colour.
    open spec fn permits(self, last_moves: Seq<Move>, choice: Color) -> bool {
        true
    }

    /// The colour to play after the given rounds.
    fn next(&self, last_moves: &[Move]) -> (c: Color)
        ensures
            self.permits(last_moves@, c),
    ;
}

/// A history that two programs can have produced together: every option is
/// permitted by its side's program on the rounds before it, the second
/// side seeing each earlier move reoriented.
pub open spec fn valid_history<S1: Strategy, S2: Strategy>(s1: S1, s2: S2, h: Seq<Move>) -> bool {
    forall|i: int|
        0 <= i < h.len() ==> #[trigger] s1.permits(h.take(i), h[i].0) && s2.permits(
            swap_history(h.take(i)),
            h[i].1,
        )
}

/// A program that can only ever answer one colour, whatever the history.
pub open spec fn always_plays<S: Strategy>(s: S, c: Color) -> bool {
    forall|h: Seq<Move>, d: Color| #[trigger] s.permits(h, d) ==> d == c
}

/// Represents a player program.
///
/// To create a player that can play the game, a program is needed.
/// A name that eases identification may be added but is not necessary.
pub struct Player<S> {
    name: Option<String>,
    program: S,
}

impl<S: Strategy + Copy> Clone for Player<S> {
    /// A clone carries the same name and the same program.
    fn clone(&self) -> (r: Self)
        ensures
            r == *self,
    {
        Player {
            name: match &self.name {
                Some(n) => Some(n.clone()),
                None => None,
            },
            program: self.program,
        }
    }
}

impl<S: Strategy> Player<S> {
    /// The program bound to this player.
    pub closed spec fn spec_program(self) -> S {
        self.program
    }

    /// The player's display name; empty when none was given.
    pub closed spec fn spec_name(self) -> Seq<char> {
        match self.name {
            Some(n) => n@,
            None => Seq::empty(),
        }
    }

    /// Create a new player from a program, with an empty name.
    pub fn new(program: S) -> (p: Player<S>)
        ensures
            p.spec_program() == program,
            p.spec_name() == Seq::<char>::empty(),
    {
        Player { name: None, program }
    }

    /// Create a new player from a name and a program.
    pub fn with_name(name: &str, program: S) -> (p: Player<S>)
        ensures
            p.spec_program() == program,
            p.spec_name() == name@,
    {
        Player::new(program).set_name(name)
    }

    /// Set the name of the player, returning the renamed player.
    pub fn set_name(self, name: &str) -> (p: Player<S>)
        ensures
            p.spec_program() == self.spec_program(),
            p.spec_name() == name@,
    {
        Player { name: Some(name.to_owned()), program: self.program }
    }

    /// Get the name of the player; empty when none was given.
    pub fn get_name(&self) -> (r: &str)
        ensures
            r@ == self.spec_name(),
    {
        match &self.name {
            Some(name) => name.as_str(),
            None => {
                proof {
                    reveal_strlit("");
                    assert(""@ =~= Seq::<char>::empty());
                }
                ""
            },
        }
    }

    /// Run the player's program on the rounds played so far.
    pub fn make_move(&self, last_moves: &[Move]) -> (c: Color)
        ensures
            self.spec_program().permits(last_moves@, c),
    {
        self.program.next(last_moves)
    }
}

/// Reorient a history so that the second player's option comes first in
/// every move.
fn swap_moves(moves: &Vec<Move>) -> (r: Vec<Move>)
    ensures
        r@ == swap_history(moves@),
{
    let mut r: Vec<Move> = Vec::new();
    let mut i: usize = 0;
    while i < moves.len()
        invariant
            i <= moves@.len(),
            r@ =~= swap_history(moves@.take(i as int)),
        decreases moves@.len() - i,
    {
        let m = moves[i];
        r.push((m.1, m.0));
        proof {
            assert(moves@.take(i + 1).map_values(|mv: Move| (mv.1, mv.0)) =~= moves@.take(
                i as int,
            ).map_values(|mv: Move| (mv.1, mv.0)).push((m.1, m.0)));
        }
        i = i + 1;
    }
    proof {
        assert(moves@.take(moves@.len() as int) =~= moves@);
    }
    r
}

/// Compute both sides' raw point totals of a history, before the Blue bonus.
pub fn calculate_scores(last_moves: &[Move]) -> (scores: (i32, i32))
    requires
        last_moves@.len() <= MAX_PLAYABLE_ROUNDS,
    ensures
        scores.0 == raw_scores(last_moves@).0,
        scores.1 == raw_scores(last_moves@).1,
{
    let mut first: i32 = 0;
    let mut second: i32 = 0;
    let mut i: usize = 0;
    while i < last_moves.len()
        invariant
            i <= last_moves@.len(),
            last_moves@.len() <= MAX_PLAYABLE_ROUNDS,
            first == raw_scores(last_moves@.take(i as int)).0,
            second == raw_scores(last_moves@.take(i as int)).1,
            -(i as int) <= first <= 3 * i as int,
            -(i as int) <= second <= 3 * i as int,
        decreases last_moves@.len() - i,
    {
        let m = last_moves[i];
        proof {
            assert(last_moves@.take(i + 1).drop_last() =~= last_moves@.take(i as int));
            assert(last_moves@.take(i + 1).last() == m);
        }
        match m {
            (Color::Red, Color::Red) => {
                first = first + 1;
                second = second + 1;
            },
            (Color::Red, Color::Green) => {
                first = first + 3;
            },
            (Color::Green, Color::Red) => {
                second = second + 3;
            },
            (Color::Green, Color::Green) => {
                first = first + 2;
                second = second + 2;
            },
            (Color::Blue, Color::Blue) => {},
            (Color::Blue, _) => {
                first = first - 1;
                second = second + 1;
            },
            (_, Color::Blue) => {
                first = first + 1;
                second = second - 1;
            },
        }
        i = i + 1;
    }
    proof {
        assert(last_moves@.take(last_moves@.len() as int) =~= last_moves@);
    }
    (first, second)
}

/// Count how many Blue options each side of a history played.
pub(crate) fn count_blue_options(last_moves: &[Move]) -> (counts: (usize, usize))
    ensures
        counts.0 == blue_counts(last_moves@).0,
        counts.1 == blue_counts(last_moves@).1,
{
    let mut first: usize = 0;
    let mut second: usize = 0;
    let mut i: usize = 0;
    while i < last_moves.len()
        invariant
            i <= last_moves@.len(),
            first == blue_counts(last_moves@.take(i as int)).0,
            second == blue_counts(last_moves@.take(i as int)).1,
            first <= i,
            second <= i,
        decreases last_moves@.len() - i,
    {
        let m = last_moves[i];
        proof {
            assert(last_moves@.take(i + 1).drop_last() =~= last_moves@.take(i as int));
            assert(last_moves@.take(i + 1).last() == m);
        }
        if matches!(m.0, Color::Blue) {
            first = first + 1;
        }
        if matches!(m.1, Color::Blue) {
            second = second + 1;
        }
        i = i + 1;
    }
    proof {
        assert(last_moves@.take(last_moves@.len() as int) =~= last_moves@);
    }
    (first, second)
}

/// How many moves of a history have the given colour as the opponent's
/// (second) option.
pub open spec fn opponent_count(h: Seq<Move>, c: Color) -> int
    decreases h.len(),
{
    if h.len() == 0 {
        0
    } else {
        opponent_count(h.drop_last(), c) + if h.last().1 == c {
            1int
        } else {
            0int
        }
    }
}

/// Count the moves of a history whose opponent's option is the given colour.
pub(crate) fn count_opponent(last_moves: &[Move], c: Color) -> (n: usize)
    ensures
        n == opponent_count(last_moves@, c),
{
    let mut n: usize = 0;
    let mut i: usize = 0;
    while i < last_moves.len()
        invariant
            i <= last_moves@.len(),
            n == opponent_count(last_moves@.take(i as int), c),
            n <= i,
        decreases last_moves@.len() - i,
    {
        let m = last_moves[i];
        proof {
            assert(last_moves@.take(i + 1).drop_last() =~= last_moves@.take(i as int));
            assert(last_moves@.take(i + 1).last() == m);
        }
        if m.1 == c {
            n = n + 1;
        }
        i = i + 1;
    }
    proof {
        assert(last_moves@.take(last_moves@.len() as int) =~= last_moves@);
    }
    n
}

/// Both sides' raw totals of a history in a type wide enough for any slice
/// length, so that strategies may score histories of any length.
pub(crate) fn raw_totals_wide(last_moves: &[Move]) -> (scores: (i128, i128))
    ensures
        scores.0 == raw_scores(last_moves@).0,
        scores.1 == raw_scores(last_moves@).1,
        last_moves@.len() <= usize::MAX,
        -(last_moves@.len() as int) <= scores.0 <= 3 * last_moves@.len() as int,
        -(last_moves@.len() as int) <= scores.1 <= 3 * last_moves@.len() as int,
{
    let mut first: i128 = 0;
    let mut second: i128 = 0;
    let mut i: usize = 0;
    while i < last_moves.len()
        invariant
            i <= last_moves@.len(),
            first == raw_scores(last_moves@.take(i as int)).0,
            second == raw_scores(last_moves@.take(i as int)).1,
            -(i as int) <= first <= 3 * i as int,
            -(i as int) <= second <= 3 * i as int,
        decreases last_moves@.len() - i,
    {
        let m = last_moves[i];
        proof {
            assert(last_moves@.take(i + 1).drop_last() =~= last_moves@.take(i as int));
            assert(last_moves@.take(i + 1).last() == m);
        }
        match m {
            (Color::Red, Color::Red) => {
                first = first + 1;
                second = second + 1;
            },
            (Color::Red, Color::Green) => {
                first = first + 3;
            },
            (Color::Green, Color::Red) => {
                second = second + 3;
            },
            (Color::Green, Color::Green) => {
                first = first + 2;
                second = second + 2;
            },
            (Color::Blue, Color::Blue) => {},
            (Color::Blue, _) => {
                first = first - 1;
                second = second + 1;
            },
            (_, Color::Blue) => {
                first = first + 1;
                second = second - 1;
            },
        }
        i = i + 1;
    }
    proof {
        assert(last_moves@.take(last_moves@.len() as int) =~= last_moves@);
    }
    (first, second)
}

/// Play one match of `rounds` rounds between two players (they may be the
/// same) and return the final score pair, in the order the players were
/// given.
///
/// The result is the final scoring of some history the two programs can have
/// produced together; zero rounds always score (0, 0).
pub fn play<S1: Strategy, S2: Strategy>(player_1: Player<S1>, player_2: Player<S2>, rounds: u32) -> (scores: (
    i32,
    i32,
))
    requires
        rounds <= MAX_PLAYABLE_ROUNDS,
    ensures
        exists|h: Seq<Move>|
            #[trigger] valid_history(player_1.spec_program(), player_2.spec_program(), h)
                && h.len() == rounds as int && scores.0 == final_scores(h).0 && scores.1
                == final_scores(h).1,
        rounds == 0 ==> scores == (0i32, 0i32),
{
    let mut last_moves: Vec<Move> = Vec::new();
    let mut i: u32 = 0;
    while i < rounds
        invariant
            i <= rounds,
            last_moves@.len() == i as int,
            valid_history(player_1.spec_program(), player_2.spec_program(), last_moves@),
        decreases rounds - i,
    {
        let player1_move = player_1.make_move(last_moves.as_slice());
        let last_moves_swapped = swap_moves(&last_moves);
        let player2_move = player_2.make_move(last_moves_swapped.as_slice());
        proof {
            let prev = last_moves@;
            let next = prev.push((player1_move, player2_move));
            assert forall|k: int| 0 <= k < next.len() implies #[trigger] player_1.spec_program().permits(
                next.take(k),
                next[k].0,
            ) && player_2.spec_program().permits(swap_history(next.take(k)), next[k].1) by {
                assert(next.take(k) =~= if k <= prev.len() {
                    prev.take(k)
                } else {
                    prev
                });
                if k < prev.len() {
                    assert(prev.take(k) =~= next.take(k));
                } else {
                    assert(next.take(k) =~= prev);
                    assert(next[k] == (player1_move, player2_move));
                }
            }
        }
        last_moves.push((player1_move, player2_move));
        i = i + 1;
    }
    let scores = calculate_scores(last_moves.as_slice());
    let blues = count_blue_options(last_moves.as_slice());
    proof {
        lemma_raw_scores_bounds(last_moves@);
    }
    let result = if blues.0 > blues.1 {
        (scores.0 * 2, scores.1)
    } else if blues.0 < blues.1 {
        (scores.0, scores.1 * 2)
    } else {
        scores
    };
    proof {
        let h = last_moves@;
        assert(valid_history(player_1.spec_program(), player_2.spec_program(), h) && h.len()
            == rounds as int && result.0 == final_scores(h).0 && result.1 == final_scores(h).1);
        if rounds == 0 {
            assert(h =~= Seq::<Move>::empty());
        }
    }
    result
}

/// Raw totals stay between losing one point and winning three points a round.
pub proof fn lemma_raw_scores_bounds(h: Seq<Move>)
    ensures
        -h.len() <= raw_scores(h).0 <= 3 * h.len(),
        -h.len() <= raw_scores(h).1 <= 3 * h.len(),
    decreases h.len(),
{
    if h.len() > 0 {
        lemma_raw_scores_bounds(h.drop_last());
    }
}

/// A history produced by two programs that each always play one fixed colour
/// repeats that pair of colours every round.
pub proof fn lemma_constant_programs_history<S1: Strategy, S2: Strategy>(
    s1: S1,
    s2: S2,
    h: Seq<Move>,
    c1: Color,
    c2: Color,
)
    requires
        valid_history(s1, s2, h),
        always_plays(s1, c1),
        always_plays(s2, c2),
    ensures
        forall|i: int| 0 <= i < h.len() ==> h[i] == (c1, c2),
{
    assert forall|i: int| 0 <= i < h.len() implies h[i] == (c1, c2) by {
        assert(s1.permits(h.take(i), h[i].0));
        assert(s2.permits(swap_history(h.take(i)), h[i].1));
    }
}

/// Scoring a history whose every round is one and the same move: each side's
/// raw total is its payoff for that move times the number of rounds, and its
/// Blue count is the length when its option is Blue, zero otherwise.
pub proof fn lemma_uniform_history_scores(h: Seq<Move>, m: Move)
    requires
        forall|i: int| 0 <= i < h.len() ==> h[i] == m,
    ensures
        raw_scores(h) == (h.len() * payoff_first(m), h.len() * payoff_second(m)),
        blue_counts(h).0 == if m.0 is Blue {
            h.len() as int
        } else {
            0int
        },
        blue_counts(h).1 == if m.1 is Blue {
            h.len() as int
        } else {
            0int
        },
    decreases h.len(),
{
    if h.len() > 0 {
        lemma_uniform_history_scores(h.drop_last(), m);
        assert(h.last() == m);
        assert((h.len() - 1) * payoff_first(m) + payoff_first(m) == h.len() * payoff_first(m))
            by (nonlinear_arith);
        assert((h.len() - 1) * payoff_second(m) + payoff_second(m) == h.len() * payoff_second(m))
            by (nonlinear_arith);
    }
}

/// Two programs that both always play Green score two points each every
/// round: a match of `r` rounds ends (2r, 2r), with no Blue doubling.
pub proof fn lemma_green_green_match<S1: Strategy, S2: Strategy>(s1: S1, s2: S2, h: Seq<Move>)
    requires
        valid_history(s1, s2, h),
        always_plays(s1, Color::Green),
        always_plays(s2, Color::Green),
    ensures
        final_scores(h) == (2 * h.len() as int, 2 * h.len() as int),
{
    lemma_constant_programs_history(s1, s2, h, Color::Green, Color::Green);
    lemma_uniform_history_scores(h, (Color::Green, Color::Green));
}

/// Two programs that both always play Red score one point each every round:
/// a match of `r` rounds ends (r, r).
pub proof fn lemma_red_red_match<S1: Strategy, S2: Strategy>(s1: S1, s2: S2, h: Seq<Move>)
    requires
        valid_history(s1, s2, h),
        always_plays(s1, Color::Red),
        always_plays(s2, Color::Red),
    ensures
        final_scores(h) == (h.len() as int, h.len() as int),
{
    lemma_constant_programs_history(s1, s2, h, Color::Red, Color::Red);
    lemma_uniform_history_scores(h, (Color::Red, Color::Red));
}

/// Always-Red against always-Green: the Red side takes three points every
/// round and the Green side none, so a match of `r` rounds ends (3r, 0).
pub proof fn lemma_red_green_match<S1: Strategy, S2: Strategy>(s1: S1, s2: S2, h: Seq<Move>)
    requires
        valid_history(s1, s2, h),
        always_plays(s1, Color::Red),
        always_plays(s2, Color::Green),
    ensures
        final_scores(h) == (3 * h.len() as int, 0int),
{
    lemma_constant_programs_history(s1, s2, h, Color::Red, Color::Green);
    lemma_uniform_history_scores(h, (Color::Red, Color::Green));
}

/// Two programs that both always play Blue: the Blue counts are equal, no
/// score is doubled, and every round is worth nothing, so the match ends
/// (0, 0).
pub proof fn lemma_blue_blue_match<S1: Strategy, S2: Strategy>(s1: S1, s2: S2, h: Seq<Move>)
    requires
        valid_history(s1, s2, h),
        always_plays(s1, Color::Blue),
        always_plays(s2, Color::Blue),
    ensures
        final_scores(h) == (0int, 0int),
{
    lemma_constant_programs_history(s1, s2, h, Color::Blue, Color::Blue);
    lemma_uniform_history_scores(h, (Color::Blue, Color::Blue));
}

/// The Blue bonus rule: on a history where one side's Blue count strictly
/// exceeds the other's, that side's final score is exactly twice its raw
/// total and the other side's is its raw total unchanged.
pub proof fn lemma_blue_bonus_doubles(h: Seq<Move>)
    requires
        blue_counts(h).0 > blue_counts(h).1,
    ensures
        final_scores(h).0 == 2 * raw_scores(h).0,
        final_scores(h).1 == raw_scores(h).1,
{
}

} // verus!
