//! What holds of every attempt and of every run with restarts.
//!
//! An attempt is followed here as the list of what its steps were handed: the
//! words of the neighbours that the index returned, and the oracle's answers.

use crate::attempt::{sentinel, Attempt};
use crate::errors::KontekstoError;
use crate::restart::{
    attempted, gave_up, gave_up_at, ranks_of, recorded, tallied, LinearSolver, Tally,
};
use crate::selection::{choice, is_choice, lemma_choice_exists, scored};
use crate::solver::{Outcome, SearchState};
use crate::step::{Step, NEIGHBORS_PER_STEP};
use vstd::prelude::*;

verus! {

/// What one round of an attempt was handed, and what it committed.
pub struct Observation<T> {
    /// The words of the neighbours, in the order of the index.
    pub words: Seq<Seq<char>>,
    /// The oracle's answers, in the same order; `None` is a failed call.
    pub ranks: Seq<Option<u32>>,
    /// The momentum of the move that was committed after the step, if one was.
    pub committed: Option<Seq<T>>,
}

/// The state after the rounds that were handed `seen`, one after the other:
/// every state that a solver passes through between two steps.
pub open spec fn run<T>(start: SearchState<T>, seen: Seq<Observation<T>>) -> SearchState<T>
    decreases seen.len(),
{
    if seen.len() == 0 {
        start
    } else {
        run(start, seen.drop_last()).after_round(
            seen.last().words,
            seen.last().ranks,
            seen.last().committed,
        )
    }
}

/// A step never makes the best rank worse, never forgets an excluded word,
/// and excludes exactly the words it was handed unless the attempt is out of
/// steps.
pub proof fn law_step_keeps_progress<T>(
    state: SearchState<T>,
    words: Seq<Seq<char>>,
    ranks: Seq<Option<u32>>,
)
    ensures
        state.after_step(words, ranks).best.1 <= state.best.1,
        state.tabu.is_prefix_of(state.after_step(words, ranks).tabu),
        state.after_step(words, ranks).tabu.len() == state.tabu.len() + (if state.bails() {
            0
        } else {
            words.len()
        }),
        state.after_step(words, ranks).settings == state.settings,
        state.after_step(words, ranks).momentum == state.momentum,
        state.after_step(words, ranks).iter == state.iter + (if state.bails() {
            0nat
        } else {
            1nat
        }),
{
    let after = state.after_step(words, ranks);
    if !state.bails() {
        assert(after.tabu =~= state.tabu + words);
        assert((state.tabu + words).subrange(0, state.tabu.len() as int) =~= state.tabu);
    }
}

/// A round does to the best attempt, the tabu set, the count of steps and
/// the settings what its step does: the commit of a move touches the
/// momentum alone.
pub proof fn law_round_keeps_progress<T>(
    state: SearchState<T>,
    words: Seq<Seq<char>>,
    ranks: Seq<Option<u32>>,
    committed: Option<Seq<T>>,
)
    ensures
        state.after_round(words, ranks, committed).best == state.after_step(words, ranks).best,
        state.after_round(words, ranks, committed).tabu == state.after_step(words, ranks).tabu,
        state.after_round(words, ranks, committed).iter == state.after_step(words, ranks).iter,
        state.after_round(words, ranks, committed).settings == state.settings,
        state.after_round(words, ranks, committed).best.1 <= state.best.1,
        state.tabu.is_prefix_of(state.after_round(words, ranks, committed).tabu),
        state.after_round(words, ranks, committed).tabu.len() == state.tabu.len() + (
        if state.bails() {
            0
        } else {
            words.len()
        }),
        state.after_round(words, ranks, committed).iter == state.iter + (if state.bails() {
            0nat
        } else {
            1nat
        }),
        committed is None ==> state.after_round(words, ranks, committed).momentum
            == state.momentum,
        committed is Some ==> state.after_round(words, ranks, committed).momentum == committed,
{
    law_step_keeps_progress(state, words, ranks);
}

/// What a step returns and what it leaves behind go together as a solver
/// that is advanced step by step needs it: a step that goes on uses up one
/// of the steps left, one that gives up hands back the best attempt and
/// changes nothing, and one that is done leaves a best attempt of rank 0.
pub proof fn law_step_meets_protocol<T>(
    state: SearchState<T>,
    query_len: nat,
    words: Seq<Seq<char>>,
    dims: Seq<nat>,
    ranks: Seq<Option<u32>>,
)
    ensures
        match state.outcome(query_len, words, dims, ranks) {
            Outcome::Stay(_) | Outcome::Advance { .. } => state.after_step(
                words,
                ranks,
            ).steps_left() < state.steps_left(),
            Outcome::Bailed(best) => best == state.best && state.after_step(words, ranks)
                == state,
            Outcome::Done => state.after_step(words, ranks).best.1 == 0,
            Outcome::Failed(_) => !state.bails(),
        },
{
    let found = lemma_choice_exists(words.len() as int, ranks);
}

/// What a step returns is decided by the chosen neighbour's rank: beyond the
/// margin the query stays; a move is made for a rank of at least 1 within the
/// margin, from the best rank as it was before the step, and only where the
/// lengths agree; a step fails for want of a scored neighbour or of agreeing
/// lengths, and for nothing else.
pub proof fn law_outcome_follows_choice<T>(
    state: SearchState<T>,
    query_len: nat,
    words: Seq<Seq<char>>,
    dims: Seq<nat>,
    ranks: Seq<Option<u32>>,
)
    requires
        !state.bails(),
    ensures
        match state.outcome(query_len, words, dims, ranks) {
            Outcome::Stay(attempt) => exists|i: int|
                is_choice(words.len() as int, ranks, i) && attempt == (
                    words[i],
                    ranks[i].unwrap(),
                ) && attempt.1 > state.settings.margin,
            Outcome::Advance { index, previous_best_rank } => is_choice(
                words.len() as int,
                ranks,
                index,
            ) && 0 < ranks[index].unwrap() <= state.settings.margin && previous_best_rank
                == state.best.1 && state.fits(query_len, dims[index]),
            Outcome::Done => exists|i: int|
                is_choice(words.len() as int, ranks, i) && ranks[i] == Some(0u32),
            Outcome::Failed(error) => if error == KontekstoError::NoScorableNeighbors {
                forall|j: int| !scored(words.len() as int, ranks, j)
            } else {
                error == KontekstoError::DimensionMismatch && exists|i: int|
                    is_choice(words.len() as int, ranks, i) && 0 < ranks[i].unwrap()
                        <= state.settings.margin && !state.fits(query_len, dims[i])
            },
            Outcome::Bailed(_) => false,
        },
{
    let found = lemma_choice_exists(words.len() as int, ranks);
}

/// Once there is a momentum, its length stays: a step decides to move only
/// from a query of that length to a neighbour of that length, and only a
/// momentum of that length can take its place.
pub proof fn law_momentum_keeps_its_length<T>(
    state: SearchState<T>,
    query_len: nat,
    words: Seq<Seq<char>>,
    dims: Seq<nat>,
    ranks: Seq<Option<u32>>,
    momentum: Seq<T>,
    next_query_len: nat,
)
    requires
        state.momentum is Some,
    ensures
        state.after_step(words, ranks).momentum == state.momentum,
        state.outcome(query_len, words, dims, ranks) matches Outcome::Advance { index, .. }
            ==> query_len == state.momentum.unwrap().len() && dims[index]
            == state.momentum.unwrap().len(),
        state.fits(next_query_len, momentum.len()) ==> momentum.len()
            == state.momentum.unwrap().len() && next_query_len == momentum.len(),
{
    let found = lemma_choice_exists(words.len() as int, ranks);
}

/// Within an attempt the best rank never rises: after more steps it is at
/// most what it was after fewer.
pub proof fn law_best_rank_never_rises<T>(
    start: SearchState<T>,
    seen: Seq<Observation<T>>,
    earlier: int,
    later: int,
)
    requires
        0 <= earlier <= later <= seen.len(),
    ensures
        run(start, seen.take(later)).best.1 <= run(start, seen.take(earlier)).best.1,
    decreases later - earlier,
{
    if earlier < later {
        law_best_rank_never_rises(start, seen, earlier, later - 1);
        let upto = seen.take(later);
        assert(upto.drop_last() =~= seen.take(later - 1));
        law_round_keeps_progress(
            run(start, seen.take(later - 1)),
            upto.last().words,
            upto.last().ranks,
            upto.last().committed,
        );
    }
}

/// Within an attempt the tabu set never shrinks: what was excluded after
/// fewer steps is still excluded, in the same place, after more.
pub proof fn law_tabu_never_shrinks<T>(
    start: SearchState<T>,
    seen: Seq<Observation<T>>,
    earlier: int,
    later: int,
)
    requires
        0 <= earlier <= later <= seen.len(),
    ensures
        run(start, seen.take(earlier)).tabu.is_prefix_of(run(start, seen.take(later)).tabu),
    decreases later - earlier,
{
    let short = run(start, seen.take(earlier)).tabu;
    if earlier < later {
        law_tabu_never_shrinks(start, seen, earlier, later - 1);
        let upto = seen.take(later);
        assert(upto.drop_last() =~= seen.take(later - 1));
        let middle = run(start, seen.take(later - 1));
        law_round_keeps_progress(
            middle,
            upto.last().words,
            upto.last().ranks,
            upto.last().committed,
        );
        let long = middle.after_round(
            upto.last().words,
            upto.last().ranks,
            upto.last().committed,
        ).tabu;
        assert(long.subrange(0, short.len() as int) =~= middle.tabu.subrange(
            0,
            short.len() as int,
        ));
    } else {
        assert(short.subrange(0, short.len() as int) =~= short);
    }
}

/// After `n` steps that the attempt had room for, each handed at least one
/// neighbour and at most as many as a step asks for, the tabu set has grown
/// by at least `n` words and at most `n` times that many.
pub proof fn law_tabu_growth<T>(start: SearchState<T>, seen: Seq<Observation<T>>)
    requires
        start.iter + seen.len() <= start.settings.max_iters,
        forall|k: int|
            0 <= k < seen.len() ==> 1 <= (#[trigger] seen[k]).words.len() <= NEIGHBORS_PER_STEP,
    ensures
        run(start, seen).iter == start.iter + seen.len(),
        run(start, seen).settings == start.settings,
        start.tabu.len() + seen.len() <= run(start, seen).tabu.len(),
        run(start, seen).tabu.len() <= start.tabu.len() + seen.len() * NEIGHBORS_PER_STEP,
    decreases seen.len(),
{
    if seen.len() > 0 {
        let before = seen.drop_last();
        assert forall|k: int| 0 <= k < before.len() implies 1 <= (#[trigger] before[k]).words.len()
            <= NEIGHBORS_PER_STEP by {
            assert(before[k] == seen[k]);
        }
        law_tabu_growth(start, before);
        law_round_keeps_progress(
            run(start, before),
            seen.last().words,
            seen.last().ranks,
            seen.last().committed,
        );
        assert(1 <= seen[seen.len() - 1].words.len() <= NEIGHBORS_PER_STEP);
    }
}

/// Where the oracle gives rank 0 to any neighbour that a step explores, the
/// step is done, and the best attempt has rank 0 from then on.
pub proof fn law_zero_rank_is_done<T>(
    state: SearchState<T>,
    query_len: nat,
    words: Seq<Seq<char>>,
    dims: Seq<nat>,
    ranks: Seq<Option<u32>>,
    solved: int,
)
    requires
        !state.bails(),
        scored(words.len() as int, ranks, solved),
        ranks[solved] == Some(0u32),
    ensures
        state.outcome(query_len, words, dims, ranks) == Outcome::Done,
        state.after_step(words, ranks).best.1 == 0,
{
    let found = lemma_choice_exists(words.len() as int, ranks);
    assert(found is Some);
}

/// The best attempt after some steps that the attempt had room for is the
/// least-ranked of what it started with and everything scored on the way.
pub proof fn law_best_is_least_seen<T>(start: SearchState<T>, seen: Seq<Observation<T>>)
    requires
        start.iter + seen.len() <= start.settings.max_iters,
    ensures
        run(start, seen).iter == start.iter + seen.len(),
        run(start, seen).settings == start.settings,
        run(start, seen).best.1 <= start.best.1,
        forall|k: int, i: int|
            0 <= k < seen.len() && #[trigger] scored(
                seen[k].words.len() as int,
                seen[k].ranks,
                i,
            ) ==> run(start, seen).best.1 <= seen[k].ranks[i].unwrap(),
        run(start, seen).best == start.best || exists|k: int, i: int|
            0 <= k < seen.len() && #[trigger] scored(
                seen[k].words.len() as int,
                seen[k].ranks,
                i,
            ) && run(start, seen).best == (seen[k].words[i], seen[k].ranks[i].unwrap()),
    decreases seen.len(),
{
    if seen.len() > 0 {
        let before = seen.drop_last();
        let last = seen.last();
        law_best_is_least_seen(start, before);
        let middle = run(start, before);
        let end = run(start, seen);
        let count = last.words.len() as int;
        let found = lemma_choice_exists(count, last.ranks);
        assert(!middle.bails());
        assert forall|k: int, i: int|
            0 <= k < seen.len() && #[trigger] scored(
                seen[k].words.len() as int,
                seen[k].ranks,
                i,
            ) implies end.best.1 <= seen[k].ranks[i].unwrap() by {
            if k < before.len() {
                assert(before[k] == seen[k]);
                assert(scored(before[k].words.len() as int, before[k].ranks, i));
            } else {
                assert(seen[k] == last);
                assert(scored(count, last.ranks, i));
            }
        }
        if end.best != start.best {
            if end.best == middle.best {
                let (k, i) = choose|k: int, i: int|
                    0 <= k < before.len() && #[trigger] scored(
                        before[k].words.len() as int,
                        before[k].ranks,
                        i,
                    ) && middle.best == (before[k].words[i], before[k].ranks[i].unwrap());
                assert(before[k] == seen[k]);
                assert(scored(seen[k].words.len() as int, seen[k].ranks, i));
            } else {
                let i = found.unwrap();
                let k = seen.len() - 1;
                assert(scored(seen[k].words.len() as int, seen[k].ranks, i));
            }
        }
    }
}

/// An attempt that has used up its steps gives up, whatever it is handed,
/// and hands back the least-ranked attempt of all that was scored in it (the
/// attempt of no word and largest rank if nothing better was).
pub proof fn law_bail_hands_back_least<T>(
    start: SearchState<T>,
    seen: Seq<Observation<T>>,
    query_len: nat,
    words: Seq<Seq<char>>,
    dims: Seq<nat>,
    ranks: Seq<Option<u32>>,
)
    requires
        start == SearchState::fresh(start.settings),
        seen.len() == start.settings.max_iters,
    ensures
        run(start, seen).outcome(query_len, words, dims, ranks) == Outcome::Bailed(
            run(start, seen).best,
        ),
        run(start, seen).after_step(words, ranks) == run(start, seen),
        forall|k: int, i: int|
            0 <= k < seen.len() && #[trigger] scored(
                seen[k].words.len() as int,
                seen[k].ranks,
                i,
            ) ==> run(start, seen).best.1 <= seen[k].ranks[i].unwrap(),
        run(start, seen).best == sentinel() || exists|k: int, i: int|
            0 <= k < seen.len() && #[trigger] scored(
                seen[k].words.len() as int,
                seen[k].ranks,
                i,
            ) && run(start, seen).best == (seen[k].words[i], seen[k].ranks[i].unwrap()),
{
    law_best_is_least_seen(start, seen);
}

/// The winner of a tally is its solution if it has one; else, of its bails,
/// one of least rank; a tally without solution and bails has no winner.
pub proof fn law_winner_is_least(tally: Tally)
    ensures
        tally.solved matches Some(a) ==> tally.winner() == Some(a),
        tally.solved is None && tally.bails@.len() == 0 ==> tally.winner() is None,
        tally.solved is None && tally.bails@.len() > 0 ==> (tally.winner() matches Some(w) && (
        exists|i: int| 0 <= i < tally.bails@.len() && w == tally.bails@[i]) && (forall|j: int|
            0 <= j < tally.bails@.len() ==> w.rank <= (#[trigger] tally.bails@[j]).rank)),
{
    let count = tally.bails@.len() as int;
    let ranks = ranks_of(tally.bails@);
    let found = lemma_choice_exists(count, ranks);
    if tally.solved is None && count > 0 {
        assert(scored(count, ranks, 0));
        let i = found.unwrap();
        let w: Attempt = tally.bails@[i];
        assert(tally.winner() == Some(w));
        assert forall|j: int| 0 <= j < count implies w.rank <= (#[trigger] tally.bails@[j]).rank by {
            assert(scored(count, ranks, j));
        }
    }
}

/// Where every seed of a run gave up, the run's winner is the best attempt
/// with which the attempt from one of the seeds ended: none of the attempts
/// ended with a best attempt of lower rank, and every attempt from an
/// earlier seed ended with one of higher rank.
pub proof fn law_run_returns_least<S: LinearSolver>(
    start: S,
    seeds: Seq<S::Target>,
    tally: Tally,
    starts: Seq<S>,
    ends: Seq<S>,
) -> (won: int)
    requires
        recorded(start, seeds, tally.bails@, starts, ends),
        tally.solved is None,
        tally.bails@.len() == seeds.len(),
        seeds.len() > 0,
    ensures
        0 <= won < seeds.len(),
        tally.winner() matches Some(w) && w@ == ends[won].best(),
        gave_up(starts[won], seeds[won], ends[won]),
        forall|i: int|
            0 <= i < seeds.len() ==> if i < won {
                ends[won].best().1 < (#[trigger] ends[i]).best().1
            } else {
                ends[won].best().1 <= ends[i].best().1
            },
{
    let count = tally.bails@.len() as int;
    let ranks = ranks_of(tally.bails@);
    let found = lemma_choice_exists(count, ranks);
    assert(scored(count, ranks, 0));
    let won = found.unwrap();
    assert(gave_up_at(seeds, tally.bails@, starts, ends, won));
    assert forall|i: int| 0 <= i < seeds.len() implies if i < won {
        ends[won].best().1 < (#[trigger] ends[i]).best().1
    } else {
        ends[won].best().1 <= ends[i].best().1
    } by {
        assert(scored(count, ranks, i));
        assert(gave_up_at(seeds, tally.bails@, starts, ends, i));
    }
    won
}

/// A run in which a seed led to a solution returns that solution: the best
/// attempt of the solver, of rank 0, as the attempt from that seed left it.
/// The seeds after it were not tried, and the bails recorded before it play
/// no part.
pub proof fn law_solved_run_returns_solution<S: LinearSolver>(
    start: S,
    seeds: Seq<S::Target>,
    end: S,
    tally: Tally,
)
    requires
        tallied(start, seeds, end, tally),
        tally.solved is Some,
    ensures
        tally.winner() == tally.solved,
        tally.winner().unwrap()@ == end.best(),
        tally.winner().unwrap().rank == 0,
        tally.bails@.len() < seeds.len(),
        exists|from: S| #[trigger]
            attempted(
                from,
                seeds[tally.bails@.len() as int],
                end,
                Ok::<Step<S::Target>, KontekstoError>(Step::Done),
            ),
{
    assert(tally.ending::<S::Target>() == Some(
        Ok::<Step<S::Target>, KontekstoError>(Step::Done),
    ));
    let (starts, ends) = choose|starts: Seq<S>, ends: Seq<S>| #[trigger]
        recorded(start, seeds, tally.bails@, starts, ends) && attempted(
            starts.last(),
            seeds[tally.bails@.len() as int],
            end,
            Ok::<Step<S::Target>, KontekstoError>(Step::Done),
        );
    assert(attempted(
        starts.last(),
        seeds[tally.bails@.len() as int],
        end,
        Ok::<Step<S::Target>, KontekstoError>(Step::Done),
    ));
}

} // verus!
