//! Score aggregation across a tournament's matches, and the ranking of the
//! aggregated totals into a leaderboard.

use crate::game::{Player, Strategy};
use vstd::pervasive::VecAdditionalExecFns;
use vstd::prelude::*;
use vstd::seq_lib::*;

verus! {

/// One match's bookkeeping entry: which two players met and what they
/// scored. The aggregation is specified as a fold of these records.
pub struct MatchRec {
    /// Index of the first player of the match.
    pub first: int,
    /// Index of the second player of the match.
    pub second: int,
    /// The match's final score pair.
    pub scores: (int, int),
}

/// A board with one (points, tally) cell per player, all zero.
pub open spec fn zero_board(n: int) -> Seq<(int, int)> {
    Seq::new(n as nat, |k: int| (0int, 0int))
}

/// The relative-outcome delta of a match for one side: +1 for a win, -1
/// for a loss, 0 for a draw, whatever the margin.
pub open spec fn outcome_delta(own: int, opp: int) -> int {
    if own > opp {
        1
    } else if own < opp {
        -1
    } else {
        0
    }
}

/// Credit one side of a match to a board: the side's points are added to
/// its total and the outcome delta to its tally. Out-of-range players
/// leave the board unchanged.
pub open spec fn credit_side(b: Seq<(int, int)>, p: int, own: int, opp: int) -> Seq<(int, int)> {
    if 0 <= p < b.len() {
        b.update(p, (b[p].0 + own, b[p].1 + outcome_delta(own, opp)))
    } else {
        b
    }
}

/// Apply one match record to a board, the first side first. In a
/// self-pairing both credits land on the same cell.
pub open spec fn apply_match(b: Seq<(int, int)>, m: MatchRec) -> Seq<(int, int)> {
    credit_side(credit_side(b, m.first, m.scores.0, m.scores.1), m.second, m.scores.1, m.scores.0)
}

/// The board after folding a sequence of match records over the zero
/// board, in the records' order.
pub open spec fn board_after(n: int, ms: Seq<MatchRec>) -> Seq<(int, int)>
    decreases ms.len(),
{
    if ms.len() == 0 {
        zero_board(n)
    } else {
        apply_match(board_after(n, ms.drop_last()), ms.last())
    }
}

/// Applying two match records commutes: each is the addition of fixed
/// amounts at fixed cells.
pub proof fn lemma_apply_match_commutes(b: Seq<(int, int)>, m1: MatchRec, m2: MatchRec)
    ensures
        apply_match(apply_match(b, m1), m2) == apply_match(apply_match(b, m2), m1),
{
    let x = apply_match(apply_match(b, m1), m2);
    let y = apply_match(apply_match(b, m2), m1);
    assert forall|k: int| 0 <= k < b.len() implies x[k] == y[k] by {}
    assert(x =~= y);
}

/// `board_after` is the left fold of `apply_match`, for any function that
/// agrees with `apply_match`.
proof fn lemma_board_after_as_fold(
    n: int,
    ms: Seq<MatchRec>,
    f: spec_fn(Seq<(int, int)>, MatchRec) -> Seq<(int, int)>,
)
    requires
        forall|b: Seq<(int, int)>, m: MatchRec| #[trigger] f(b, m) == apply_match(b, m),
    ensures
        board_after(n, ms) == ms.fold_left(zero_board(n), f),
    decreases ms.len(),
{
    if ms.len() > 0 {
        lemma_board_after_as_fold(n, ms.drop_last(), f);
    }
}

/// Feeding one and the same collection of match results to the aggregation
/// in any order of application yields identical final boards.
pub proof fn lemma_aggregation_order_irrelevant(n: int, ms1: Seq<MatchRec>, ms2: Seq<MatchRec>)
    requires
        ms1.to_multiset() == ms2.to_multiset(),
    ensures
        board_after(n, ms1) == board_after(n, ms2),
{
    let f = |b: Seq<(int, int)>, m: MatchRec| apply_match(b, m);
    assert forall|x: MatchRec, y: MatchRec, v: Seq<(int, int)>| #[trigger] f(f(v, x), y) == f(
        f(v, y),
        x,
    ) by {
        lemma_apply_match_commutes(v, x, y);
    }
    lemma_board_after_as_fold(n, ms1, f);
    lemma_board_after_as_fold(n, ms2, f);
    lemma_fold_left_permutation(ms1, ms2, f, zero_board(n));
}

/// Whether an integer fits the score cells' type.
pub open spec fn fits_i32(x: int) -> bool {
    i32::MIN <= x <= i32::MAX
}

/// Whether a match record can be applied to a board without any cell
/// leaving `i32`.
pub open spec fn can_record(b: Seq<(int, int)>, m: MatchRec) -> bool {
    let mid = credit_side(b, m.first, m.scores.0, m.scores.1);
    &&& 0 <= m.first < b.len()
    &&& 0 <= m.second < b.len()
    &&& fits_i32(b[m.first].0 + m.scores.0)
    &&& fits_i32(b[m.first].1 + outcome_delta(m.scores.0, m.scores.1))
    &&& fits_i32(mid[m.second].0 + m.scores.1)
    &&& fits_i32(mid[m.second].1 + outcome_delta(m.scores.1, m.scores.0))
}

/// The running totals of a tournament: one (points, relative tally) cell
/// per player, mutated only by recording whole match results.
pub struct Scoreboard {
    totals: Vec<(i32, i32)>,
}

impl View for Scoreboard {
    type V = Seq<(int, int)>;

    closed spec fn view(&self) -> Seq<(int, int)> {
        self.totals@.map_values(|e: (i32, i32)| (e.0 as int, e.1 as int))
    }
}

impl Scoreboard {
    /// A board for `length` players, every cell zero.
    pub fn new(length: usize) -> (board: Scoreboard)
        requires
            length > 0,
        ensures
            board@ == zero_board(length as int),
    {
        let mut totals: Vec<(i32, i32)> = Vec::new();
        let mut i: usize = 0;
        while i < length
            invariant
                i <= length,
                totals@.len() == i,
                forall|k: int| 0 <= k < i ==> totals@[k] == (0i32, 0i32),
            decreases length - i,
        {
            totals.push((0, 0));
            i = i + 1;
        }
        let board = Scoreboard { totals };
        proof {
            assert(board@ =~= zero_board(length as int));
        }
        board
    }

    /// How many players the board tracks.
    pub fn len(&self) -> (n: usize)
        ensures
            n == self@.len(),
    {
        self.totals.len()
    }

    /// One player's (points, tally) cell.
    pub fn score(&self, player: usize) -> (entry: (i32, i32))
        requires
            player < self@.len(),
        ensures
            entry.0 == self@[player as int].0,
            entry.1 == self@[player as int].1,
    {
        self.totals[player]
    }

    /// Fold one match result into the board: each side's points are added
    /// to its total and the win/loss/draw delta to its tally — both sides
    /// together, as one update.
    pub fn record_match(&mut self, first: usize, second: usize, scores: (i32, i32))
        requires
            can_record(
                old(self)@,
                (MatchRec {
                    first: first as int,
                    second: second as int,
                    scores: (scores.0 as int, scores.1 as int),
                }),
            ),
        ensures
            final(self)@ == apply_match(
                old(self)@,
                (MatchRec {
                    first: first as int,
                    second: second as int,
                    scores: (scores.0 as int, scores.1 as int),
                }),
            ),
    {
        let entry = self.totals[first];
        let delta: i32 = if scores.0 > scores.1 {
            1
        } else if scores.0 < scores.1 {
            -1
        } else {
            0
        };
        self.totals.set(first, (entry.0 + scores.0, entry.1 + delta));
        let entry2 = self.totals[second];
        let delta2: i32 = if scores.1 > scores.0 {
            1
        } else if scores.1 < scores.0 {
            -1
        } else {
            0
        };
        self.totals.set(second, (entry2.0 + scores.1, entry2.1 + delta2));
        proof {
            let m = MatchRec {
                first: first as int,
                second: second as int,
                scores: (scores.0 as int, scores.1 as int),
            };
            assert(self@ =~= apply_match(old(self)@, m));
        }
    }
}

/// One line of the finished leaderboard.
#[derive(Debug)]
pub struct Standing {
    /// The player's index in the tournament's player list.
    pub player: usize,
    /// The player's cumulative point total.
    pub points: i32,
    /// The player's cumulative win/loss/draw tally.
    pub tally: i32,
    /// The player's display name.
    pub name: String,
}

/// The leaderboard order on player indices of a board, non-strict:
/// strictly more points first; on equal points the smaller index — the
/// players' input order — first.
pub open spec fn ranked_le(b: Seq<(int, int)>, p: int, q: int) -> bool {
    b[p].0 > b[q].0 || (b[p].0 == b[q].0 && p <= q)
}

/// The leaderboard order, strict.
pub open spec fn ranked_lt(b: Seq<(int, int)>, p: int, q: int) -> bool {
    b[p].0 > b[q].0 || (b[p].0 == b[q].0 && p < q)
}

/// The player indices of a leaderboard's lines, in order.
pub open spec fn players_of(out: Seq<Standing>) -> Seq<usize> {
    out.map_values(|s: Standing| s.player)
}

/// What a finished leaderboard of a board is: one line per player, each
/// line carrying that player's totals and name, ordered by points
/// descending with ties in input (index) order.
pub open spec fn is_leaderboard(
    b: Seq<(int, int)>,
    names: Seq<Seq<char>>,
    out: Seq<Standing>,
) -> bool {
    &&& out.len() == b.len()
    &&& forall|k: int|
        0 <= k < out.len() ==> ((#[trigger] out[k]).player < b.len() && out[k].points == b[out[
            k
        ].player as int].0 && out[k].tally == b[out[k].player as int].1 && out[k].name@
            == names[out[k].player as int])
    &&& forall|k1: int, k2: int|
        0 <= k1 < k2 < out.len() ==> ranked_le(
            b,
            (#[trigger] out[k1]).player as int,
            (#[trigger] out[k2]).player as int,
        )
    &&& forall|k1: int, k2: int|
        0 <= k1 < k2 < out.len() ==> (#[trigger] out[k1]).player != (#[trigger] out[k2]).player
    &&& forall|p: usize| (p as int) < b.len() ==> #[trigger] players_of(out).contains(p)
}

/// Ranking keeps input order on ties: two leaderboard lines with equal
/// point totals stand in ascending player-index order, which is the
/// players' input order.
pub proof fn lemma_leaderboard_ties_keep_input_order(
    b: Seq<(int, int)>,
    names: Seq<Seq<char>>,
    out: Seq<Standing>,
    k1: int,
    k2: int,
)
    requires
        is_leaderboard(b, names, out),
        0 <= k1 < k2 < out.len(),
        out[k1].points == out[k2].points,
    ensures
        out[k1].player < out[k2].player,
{
    assert(ranked_le(b, out[k1].player as int, out[k2].player as int));
    assert(out[k1].player != out[k2].player);
}

/// The display names of a player list, in order.
pub open spec fn spec_player_names<S: Strategy>(ps: Seq<Player<S>>) -> Seq<Seq<char>> {
    ps.map_values(|p: Player<S>| p.spec_name())
}

/// Whether `p` ranks strictly before `q` on the board.
fn ranked_before(board: &Scoreboard, p: usize, q: usize) -> (r: bool)
    requires
        p < board@.len(),
        q < board@.len(),
    ensures
        r == ranked_lt(board@, p as int, q as int),
{
    let ep = board.score(p);
    let eq = board.score(q);
    ep.0 > eq.0 || (ep.0 == eq.0 && p < q)
}

/// Swapping two cells of a sequence keeps its multiset of elements.
proof fn lemma_swap_preserves_multiset<A>(s: Seq<A>, i: int, j: int)
    requires
        0 <= i < s.len(),
        0 <= j < s.len(),
    ensures
        s.update(i, s[j]).update(j, s[i]).to_multiset() == s.to_multiset(),
{
    broadcast use vstd::seq_lib::group_to_multiset_ensures;
    broadcast use vstd::seq_lib::to_multiset_update;
    broadcast use vstd::multiset::group_multiset_axioms;

    if i == j {
        assert(s.update(i, s[j]).update(j, s[i]) =~= s);
    } else {
        let s1 = s.update(i, s[j]);
        assert(s1[j] == s[j]);
        assert(s1.update(j, s[i]).to_multiset() =~= s.to_multiset());
    }
}

/// The player indices of a board, ordered for the leaderboard: points
/// descending, ties in ascending index order. Every index appears exactly
/// once.
fn sorted_player_order(board: &Scoreboard) -> (order: Vec<usize>)
    ensures
        order@.len() == board@.len(),
        forall|k: int| 0 <= k < order@.len() ==> (#[trigger] order@[k]) < board@.len(),
        forall|k1: int, k2: int|
            0 <= k1 < k2 < order@.len() ==> ranked_le(
                board@,
                order@[k1] as int,
                order@[k2] as int,
            ),
        forall|k1: int, k2: int| 0 <= k1 < k2 < order@.len() ==> order@[k1] != order@[k2],
        forall|p: usize| (p as int) < board@.len() ==> #[trigger] order@.contains(p),
{
    broadcast use vstd::seq_lib::group_to_multiset_ensures;

    let n = board.len();
    let mut order: Vec<usize> = Vec::new();
    let mut i: usize = 0;
    while i < n
        invariant
            i <= n,
            order@.len() == i,
            forall|k: int| 0 <= k < i ==> (#[trigger] order@[k]) == k,
        decreases n - i,
    {
        order.push(i);
        i = i + 1;
    }
    let ghost ident = order@;
    let mut idx: usize = 1;
    while idx < n
        invariant
            n == board@.len(),
            order@.len() == n,
            1 <= idx,
            n <= 1 || idx <= n,
            forall|k: int| 0 <= k < n ==> (#[trigger] order@[k]) < n,
            order@.to_multiset() == ident.to_multiset(),
            forall|k1: int, k2: int|
                0 <= k1 < k2 < idx ==> ranked_le(board@, order@[k1] as int, order@[k2] as int),
        decreases n - idx,
    {
        let mut j: usize = idx;
        while j > 0 && ranked_before(board, order[j], order[j - 1])
            invariant
                n == board@.len(),
                order@.len() == n,
                j <= idx < n,
                forall|k: int| 0 <= k < n ==> (#[trigger] order@[k]) < n,
                order@.to_multiset() == ident.to_multiset(),
                forall|k1: int, k2: int|
                    0 <= k1 < k2 <= idx && k2 != j ==> ranked_le(
                        board@,
                        order@[k1] as int,
                        order@[k2] as int,
                    ),
            decreases j,
        {
            let ghost before = order@;
            let a = order[j - 1];
            let b = order[j];
            order.set(j - 1, b);
            order.set(j, a);
            proof {
                lemma_swap_preserves_multiset(before, j - 1, j as int);
                assert(order@ =~= before.update(j - 1, before[j as int]).update(
                    j as int,
                    before[j - 1],
                ));
            }
            j = j - 1;
        }
        proof {
            assert forall|k1: int, k2: int| 0 <= k1 < k2 <= idx implies ranked_le(
                board@,
                order@[k1] as int,
                order@[k2] as int,
            ) by {
                if k2 == j {
                    if k1 < k2 - 1 {
                        assert(ranked_le(board@, order@[k1] as int, order@[k2 - 1] as int));
                        assert(ranked_le(board@, order@[k2 - 1] as int, order@[k2] as int));
                    }
                }
            }
        }
        idx = idx + 1;
    }
    proof {
        assert forall|k1: int, k2: int| 0 <= k1 < k2 < order@.len() implies order@[k1] != order@[k2]
            by {
            ident.lemma_multiset_has_no_duplicates();
            order@.lemma_multiset_has_no_duplicates_conv();
            assert(order@.no_duplicates());
        }
        assert forall|p: usize| (p as int) < board@.len() implies #[trigger] order@.contains(p)
            by {
            assert(ident[p as int] == p);
            assert(ident.contains(p));
            assert(ident.to_multiset().count(p) > 0);
            assert(order@.to_multiset().count(p) > 0);
        }
    }
    order
}

/// The finished leaderboard of a board: one line per player with its
/// totals and name, points descending, ties in the players' input order.
pub fn rank_standings<S: Strategy>(board: &Scoreboard, players: &Vec<Player<S>>) -> (out: Vec<
    Standing,
>)
    requires
        players@.len() == board@.len(),
    ensures
        is_leaderboard(board@, spec_player_names(players@), out@),
{
    let order = sorted_player_order(board);
    let mut out: Vec<Standing> = Vec::new();
    let mut k: usize = 0;
    while k < order.len()
        invariant
            players@.len() == board@.len(),
            order@.len() == board@.len(),
            forall|t: int| 0 <= t < order@.len() ==> (#[trigger] order@[t]) < board@.len(),
            forall|t1: int, t2: int|
                0 <= t1 < t2 < order@.len() ==> ranked_le(
                    board@,
                    order@[t1] as int,
                    order@[t2] as int,
                ),
            forall|t1: int, t2: int| 0 <= t1 < t2 < order@.len() ==> order@[t1] != order@[t2],
            forall|p: usize| (p as int) < board@.len() ==> #[trigger] order@.contains(p),
            k <= order@.len(),
            out@.len() == k,
            forall|t: int| 0 <= t < k ==> (#[trigger] out@[t]).player == order@[t],
            forall|t: int|
                0 <= t < k ==> ((#[trigger] out@[t]).points == board@[out@[t].player as int].0
                    && out@[t].tally == board@[out@[t].player as int].1 && out@[t].name@
                    == spec_player_names(players@)[out@[t].player as int]),
        decreases order@.len() - k,
    {
        let p = order[k];
        let cell = board.score(p);
        let name = players[p].get_name().to_owned();
        out.push(Standing { player: p, points: cell.0, tally: cell.1, name });
        k = k + 1;
    }
    proof {
        assert forall|p: usize| (p as int) < board@.len() implies #[trigger] players_of(
            out@,
        ).contains(p) by {
            assert(order@.contains(p));
            let t = choose|t: int| 0 <= t < order@.len() && order@[t] == p;
            assert(players_of(out@)[t] == p);
        }
    }
    out
}

} // verus!
