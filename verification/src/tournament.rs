//! The tournament: every unordered pairing of the players, self-pairings
//! included, played over one round count, aggregated into a board and
//! ranked into a leaderboard.

use crate::config::Config;
use crate::game::{
    final_scores, lemma_raw_scores_bounds, play, valid_history, Move, Player, Strategy,
    MAX_PLAYABLE_ROUNDS,
};
use crate::scores::{
    apply_match, board_after, can_record, is_leaderboard, rank_standings, spec_player_names,
    MatchRec, Scoreboard, Standing,
};
use vstd::prelude::*;

verus! {

/// Row `i` of the pairings: (i, i), (i, i+1), ..., (i, n-1).
pub open spec fn pair_row(n: int, i: int) -> Seq<(int, int)> {
    Seq::new((n - i) as nat, |t: int| (i, i + t))
}

/// The pairings of the first `i` rows, row by row.
pub open spec fn rows_of_pairs(n: int, i: int) -> Seq<(int, int)>
    decreases i,
{
    if i <= 0 {
        Seq::empty()
    } else {
        rows_of_pairs(n, i - 1) + pair_row(n, i - 1)
    }
}

/// Every unordered pairing (i, j) with i <= j of n players, row by row;
/// self-pairings included, n * (n + 1) / 2 pairings in all.
pub open spec fn all_pairs(n: int) -> Seq<(int, int)> {
    rows_of_pairs(n, n)
}

/// Twice the number of pairings in the first `i` rows.
proof fn lemma_rows_of_pairs_len(n: int, i: int)
    requires
        0 <= i <= n,
    ensures
        2 * rows_of_pairs(n, i).len() == i * (2 * n - i + 1),
    decreases i,
{
    if i > 0 {
        lemma_rows_of_pairs_len(n, i - 1);
        let prev = rows_of_pairs(n, i - 1).len() as int;
        assert(pair_row(n, i - 1).len() == n - i + 1);
        assert(rows_of_pairs(n, i).len() == prev + (n - i + 1));
        assert(2 * prev == (i - 1) * (2 * n - (i - 1) + 1));
        assert(2 * (prev + (n - i + 1)) == i * (2 * n - i + 1)) by (nonlinear_arith)
            requires
                2 * prev == (i - 1) * (2 * n - (i - 1) + 1),
        ;
    } else {
        assert(rows_of_pairs(n, i).len() == 0);
        assert(i == 0);
    }
}

/// A partial pass over the rows stays under the full pairing count.
proof fn lemma_pairs_count_bound(n: int, i: int, j: int)
    requires
        0 <= i <= j <= n,
    ensures
        2 * (rows_of_pairs(n, i).len() + (j - i)) <= n * (n + 1),
{
    lemma_rows_of_pairs_len(n, i);
    assert(i * (2 * n - i + 1) + 2 * (j - i) <= n * (n + 1)) by (nonlinear_arith)
        requires
            0 <= i <= j <= n,
    ;
}

/// One match's outcome: the final scoring of some history the two
/// programs can have produced together over the given rounds.
pub open spec fn match_outcome<S: Strategy>(s1: S, s2: S, rounds: int, scores: (int, int)) -> bool {
    exists|h: Seq<Move>|
        #[trigger] valid_history(s1, s2, h) && h.len() == rounds && scores.0 == final_scores(h).0
            && scores.1 == final_scores(h).1
}

/// The programs of a player list, in order.
pub open spec fn spec_programs<S: Strategy>(ps: Seq<Player<S>>) -> Seq<S> {
    ps.map_values(|p: Player<S>| p.spec_program())
}

/// The pairings a record sequence covers, in order.
pub open spec fn pairs_of(ms: Seq<MatchRec>) -> Seq<(int, int)> {
    ms.map_values(|m: MatchRec| (m.first, m.second))
}

/// What a full tournament's match records are: one record per pairing,
/// row by row, each holding the outcome of a match of `rounds` rounds
/// between its pairing's two programs.
pub open spec fn played_tournament<S: Strategy>(
    progs: Seq<S>,
    rounds: int,
    ms: Seq<MatchRec>,
) -> bool {
    let n = progs.len() as int;
    &&& ms.len() == all_pairs(n).len()
    &&& forall|k: int|
        0 <= k < ms.len() ==> ((#[trigger] ms[k]).first, ms[k].second) == all_pairs(n)[k]
    &&& forall|k: int| 0 <= k < ms.len() ==> 0 <= (#[trigger] ms[k]).first <= ms[k].second < n
    &&& forall|k: int|
        0 <= k < ms.len() ==> match_outcome(
            progs[(#[trigger] ms[k]).first],
            progs[ms[k].second],
            rounds,
            ms[k].scores,
        )
}

/// Whether a tournament of n players over `rounds` rounds can be
/// aggregated without any score cell leaving `i32`.
pub open spec fn fits_tournament(n: int, rounds: int) -> bool {
    &&& 12 * rounds * n * (n + 1) <= 2 * (i32::MAX as int)
    &&& n * (n + 1) <= 2 * (i32::MAX as int)
}

/// Run a tournament: play every unordered pairing of the players —
/// self-pairings included — for the configured number of rounds, fold
/// every match result into the board, and rank the board into a
/// leaderboard.
///
/// Fewer than two players is a configuration error; no match is played
/// then.
pub fn run<S: Strategy + Copy>(config: &Config, players: &Vec<Player<S>>) -> (r: Result<
    Vec<Standing>,
    &'static str,
>)
    requires
        config.spec_rounds() <= MAX_PLAYABLE_ROUNDS,
        fits_tournament(players@.len() as int, config.spec_rounds() as int),
    ensures
        r is Err <==> players@.len() < 2,
        r is Err ==> r->Err_0@ == "Too few players"@,
        r is Ok ==> exists|ms: Seq<MatchRec>|
            #[trigger] played_tournament(spec_programs(players@), config.spec_rounds() as int, ms)
                && is_leaderboard(
                board_after(players@.len() as int, ms),
                spec_player_names(players@),
                (r->Ok_0)@,
            ),
{
    if players.len() < 2 {
        return Err("Too few players");
    }
    let n = players.len();
    let rounds = config.rounds();
    let ghost gn = n as int;
    let ghost gr = rounds as int;
    let ghost progs = spec_programs(players@);
    let mut board = Scoreboard::new(n);
    let ghost mut ms: Seq<MatchRec> = Seq::empty();
    let mut i: usize = 0;
    while i < n
        invariant
            n == players@.len(),
            gn == n as int,
            gr == rounds as int,
            rounds == config.spec_rounds(),
            rounds <= MAX_PLAYABLE_ROUNDS,
            fits_tournament(gn, gr),
            progs == spec_programs(players@),
            i <= n,
            board@.len() == gn,
            board@ == board_after(gn, ms),
            pairs_of(ms) == rows_of_pairs(gn, i as int),
            forall|k: int| 0 <= k < ms.len() ==> 0 <= (#[trigger] ms[k]).first <= ms[k].second < gn,
            forall|k: int|
                0 <= k < ms.len() ==> match_outcome(
                    progs[(#[trigger] ms[k]).first],
                    progs[ms[k].second],
                    gr,
                    ms[k].scores,
                ),
            forall|p: int|
                0 <= p < gn ==> -(12 * gr * ms.len()) <= (#[trigger] board@[p]).0 <= 12 * gr
                    * ms.len(),
            forall|p: int|
                0 <= p < gn ==> -(ms.len() as int) <= (#[trigger] board@[p]).1 <= ms.len() as int,
        decreases n - i,
    {
        let mut j: usize = i;
        while j < n
            invariant
                n == players@.len(),
                gn == n as int,
                gr == rounds as int,
                rounds == config.spec_rounds(),
                rounds <= MAX_PLAYABLE_ROUNDS,
                fits_tournament(gn, gr),
                progs == spec_programs(players@),
                i < n,
                i <= j <= n,
                board@.len() == gn,
                board@ == board_after(gn, ms),
                pairs_of(ms) == rows_of_pairs(gn, i as int) + Seq::new(
                    (j - i) as nat,
                    |t: int| (i as int, i + t),
                ),
                forall|k: int|
                    0 <= k < ms.len() ==> 0 <= (#[trigger] ms[k]).first <= ms[k].second < gn,
                forall|k: int|
                    0 <= k < ms.len() ==> match_outcome(
                        progs[(#[trigger] ms[k]).first],
                        progs[ms[k].second],
                        gr,
                        ms[k].scores,
                    ),
                forall|p: int|
                    0 <= p < gn ==> -(12 * gr * ms.len()) <= (#[trigger] board@[p]).0 <= 12 * gr
                        * ms.len(),
                forall|p: int|
                    0 <= p < gn ==> -(ms.len() as int) <= (#[trigger] board@[p]).1
                        <= ms.len() as int,
            decreases n - j,
        {
            let scores = play(players[i].clone(), players[j].clone(), rounds);
            let ghost m = MatchRec {
                first: i as int,
                second: j as int,
                scores: (scores.0 as int, scores.1 as int),
            };
            proof {
                // The match result is the scoring of some valid history,
                // and stays within six points a round.
                let h = choose|h: Seq<Move>|
                    #[trigger] valid_history(progs[i as int], progs[j as int], h) && h.len() == gr
                        && scores.0 == final_scores(h).0 && scores.1 == final_scores(h).1;
                lemma_raw_scores_bounds(h);
                assert(-(6 * gr) <= scores.0 <= 6 * gr);
                assert(-(6 * gr) <= scores.1 <= 6 * gr);
                // One more record stays within the full pairing count.
                assert(ms.len() == pairs_of(ms).len());
                lemma_pairs_count_bound(gn, i as int, j + 1);
                assert(2 * (ms.len() + 1) <= gn * (gn + 1));
                // So no cell leaves i32 when this match is recorded.
                assert(12 * gr * ms.len() + 12 * gr == 12 * gr * (ms.len() + 1))
                    by (nonlinear_arith);
                assert(2 * (12 * gr * (ms.len() + 1)) <= 12 * gr * (gn * (gn + 1)))
                    by (nonlinear_arith)
                    requires
                        gr >= 0,
                        2 * (ms.len() + 1) <= gn * (gn + 1),
                ;
                assert(12 * gr * (gn * (gn + 1)) == 12 * gr * gn * (gn + 1)) by (nonlinear_arith);
                assert(can_record(board@, m));
            }
            board.record_match(i, j, scores);
            proof {
                let prev = ms;
                ms = ms.push(m);
                assert(ms.drop_last() =~= prev);
                assert(board@ == board_after(gn, ms));
                assert(pairs_of(ms) =~= pairs_of(prev).push((i as int, j as int)));
                assert(Seq::new((j + 1 - i) as nat, |t: int| (i as int, i + t)) =~= Seq::new(
                    (j - i) as nat,
                    |t: int| (i as int, i + t),
                ).push((i as int, j as int)));
                assert(12 * gr * prev.len() + 12 * gr == 12 * gr * ms.len()) by (nonlinear_arith)
                    requires
                        ms.len() == prev.len() + 1,
                ;
                assert forall|p: int|
                    0 <= p < gn implies -(12 * gr * ms.len()) <= (#[trigger] board@[p]).0 <= 12 * gr
                    * ms.len() && -(ms.len() as int) <= board@[p].1 <= ms.len() as int by {
                    assert(board@ == apply_match(board_after(gn, prev), m));
                }
            }
            j = j + 1;
        }
        proof {
            assert(Seq::new((n - i) as nat, |t: int| (i as int, i + t)) =~= pair_row(gn, i as int));
            assert(pairs_of(ms) == rows_of_pairs(gn, i + 1));
        }
        i = i + 1;
    }
    proof {
        assert(pairs_of(ms) == all_pairs(gn));
        assert forall|k: int| 0 <= k < ms.len() implies ((#[trigger] ms[k]).first, ms[k].second)
            == all_pairs(gn)[k] by {
            assert(pairs_of(ms)[k] == (ms[k].first, ms[k].second));
        }
        assert(progs.len() == gn);
        assert(played_tournament(progs, gr, ms));
    }
    let standings = rank_standings(&board, players);
    proof {
        assert(played_tournament(spec_programs(players@), config.spec_rounds() as int, ms)
            && is_leaderboard(
            board_after(players@.len() as int, ms),
            spec_player_names(players@),
            standings@,
        ));
    }
    Ok(standings)
}

} // verus!
