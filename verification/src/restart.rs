//! Running an attempt to its end, and starting over from fresh seeds.
//!
//! Attempts run one after the other on one solver. An attempt that finds the
//! word ends the run at once. One that gives up has its best attempt recorded,
//! and the solver is reset before the next seed. When every seed has given
//! up, the recorded attempt of least rank wins, the earliest of several.

use crate::attempt::{sentinel, Attempt};
use crate::errors::KontekstoError;
use crate::selection::{choice, choose_neighbor, is_choice, lemma_choice_exists, scored};
use crate::step::Step;
use vstd::prelude::*;

verus! {

/// A search that can be advanced one step at a time, asked for its best
/// attempt so far, and put back to the start.
pub trait LinearSolver {
    /// What a step starts from and hands on: the query.
    type Target;

    /// The best attempt seen since the last reset. A solver that is verified
    /// says here what that is.
    open spec fn best(&self) -> (Seq<char>, u32) {
        arbitrary()
    }

    /// A bound on how many more steps can end in `Step::Next`. A solver that
    /// is verified says here what that is.
    open spec fn steps_left(&self) -> nat {
        arbitrary()
    }

    /// Whether a step from `prev` can take the solver from this state to
    /// `after` and return `result`. A solver that is verified says here what
    /// its step does; of any other, nothing is claimed.
    open spec fn stepped(
        &self,
        prev: Self::Target,
        after: &Self,
        result: Result<Step<Self::Target>, KontekstoError>,
    ) -> bool {
        true
    }

    /// Takes one step from `prev`, as `stepped` describes it. The best rank
    /// never rises. A step that goes on uses up one of the steps left; one
    /// that gives up hands back the best attempt and leaves it as it is; one
    /// that is done has a best attempt of rank 0.
    fn next_step(&mut self, prev: Self::Target) -> (result: Result<
        Step<Self::Target>,
        KontekstoError,
    >)
        ensures
            old(self).stepped(prev, final(self), result),
            final(self).best().1 <= old(self).best().1,
            result matches Ok(Step::Next(_, _)) ==> final(self).steps_left() < old(self).steps_left(),
            result matches Ok(Step::Bailed(b)) ==> b@ == final(self).best(),
            result matches Ok(Step::Done) ==> final(self).best().1 == 0,
    ;

    /// Whether a reset can take the solver from this state to `after`. A
    /// solver that is verified says here what its reset does; of any other,
    /// nothing is claimed.
    open spec fn restarted(&self, after: &Self) -> bool {
        true
    }

    /// The best attempt seen since the last reset. The solver stays as it is.
    fn current_best(&self) -> (best: Attempt)
        ensures
            best@ == self.best(),
    ;

    /// Puts the search back to the start, as `restarted` describes it:
    /// nothing scored yet.
    fn reset(&mut self)
        ensures
            old(self).restarted(final(self)),
            final(self).best() == sentinel(),
    ;
}

/// Step `i` of a run of steps went on: it took the solver from state `i` to
/// the next, from query `i`, and handed on the next query.
pub open spec fn went_on<S: LinearSolver>(
    states: Seq<S>,
    queries: Seq<S::Target>,
    results: Seq<Result<Step<S::Target>, KontekstoError>>,
    i: int,
) -> bool {
    &&& states[i].stepped(queries[i], &states[i + 1], results[i])
    &&& results[i] matches Ok(Step::Next(_, handed)) && handed == queries[i + 1]
}

/// The steps with these results, from these queries, through these states,
/// are one attempt: there is at least one step; each but the last went on,
/// and the next started from the query it handed on; the last did not go on.
pub open spec fn is_attempt<S: LinearSolver>(
    states: Seq<S>,
    queries: Seq<S::Target>,
    results: Seq<Result<Step<S::Target>, KontekstoError>>,
) -> bool {
    &&& results.len() >= 1
    &&& states.len() == results.len() + 1
    &&& queries.len() == results.len()
    &&& forall|i: int|
        0 <= i < results.len() - 1 ==> #[trigger] went_on(states, queries, results, i)
    &&& states[results.len() - 1].stepped(queries.last(), &states.last(), results.last())
    &&& !(results.last() matches Ok(Step::Next(_, _)))
}

/// An attempt from `seed` took the solver from `start` to `end` and ended
/// with `result`, in at most one step more than `start` had steps left.
pub open spec fn attempted<S: LinearSolver>(
    start: S,
    seed: S::Target,
    end: S,
    result: Result<Step<S::Target>, KontekstoError>,
) -> bool {
    exists|
        states: Seq<S>,
        queries: Seq<S::Target>,
        results: Seq<Result<Step<S::Target>, KontekstoError>>,
    |
        #[trigger] is_attempt(states, queries, results) && states[0] == start && queries[0]
            == seed && states.last() == end && results.last() == result && results.len()
            <= start.steps_left() + 1
}

/// Runs one attempt: steps from `seed`, each from the query the one before
/// handed on, until a step is done or gives up, or fails. What is returned
/// is what that last step returned, and the solver is left as that step left
/// it: no step is taken after it. There is at most one step more than the
/// solver had steps left.
pub fn solve<S: LinearSolver>(seed: S::Target, solver: &mut S) -> (result: Result<
    Step<S::Target>,
    KontekstoError,
>)
    ensures
        attempted(*old(solver), seed, *final(solver), result),
        !(result matches Ok(Step::Next(_, _))),
        final(solver).best().1 <= old(solver).best().1,
        result matches Ok(Step::Bailed(b)) ==> b@ == final(solver).best(),
        result matches Ok(Step::Done) ==> final(solver).best().1 == 0,
{
    let mut prev = seed;
    let ghost mut states: Seq<S> = seq![*solver];
    let ghost mut queries: Seq<S::Target> = seq![seed];
    let ghost mut results: Seq<Result<Step<S::Target>, KontekstoError>> = Seq::empty();
    loop
        invariant
            states.len() == results.len() + 1,
            queries.len() == results.len() + 1,
            states[0] == *old(solver),
            queries[0] == seed,
            states.last() == *solver,
            queries.last() == prev,
            forall|i: int|
                0 <= i < results.len() ==> #[trigger] went_on(states, queries, results, i),
            results.len() + solver.steps_left() <= old(solver).steps_left(),
            solver.best().1 <= old(solver).best().1,
        decreases solver.steps_left(),
    {
        let ghost states_before = states;
        let ghost queries_before = queries;
        let ghost results_before = results;
        let result = solver.next_step(prev);
        let ghost last = result;
        proof {
            results = results_before.push(last);
            states = states_before.push(*solver);
        }
        match result {
            Ok(Step::Next(_, next)) => {
                prev = next;
                proof {
                    queries = queries_before.push(next);
                    assert forall|i: int| 0 <= i < results.len() implies #[trigger] went_on(
                        states,
                        queries,
                        results,
                        i,
                    ) by {
                        if i < results_before.len() {
                            assert(went_on(states_before, queries_before, results_before, i));
                        }
                    }
                }
            },
            other => {
                proof {
                    assert forall|i: int| 0 <= i < results.len() - 1 implies #[trigger] went_on(
                        states,
                        queries,
                        results,
                        i,
                    ) by {
                        assert(went_on(states_before, queries_before, results_before, i));
                    }
                    assert(is_attempt(states, queries, results));
                }
                return other;
            },
        }
    }
}

/// The ranks of some attempts, each as an answer that did not fail.
pub open spec fn ranks_of(attempts: Seq<Attempt>) -> Seq<Option<u32>> {
    Seq::new(attempts.len(), |i: int| Some(attempts[i].rank))
}

/// What a run with restarts has seen: the best attempt of every attempt that
/// gave up, in the order of the seeds, and the solution if one was found.
#[derive(Debug)]
pub struct Tally {
    pub bails: Vec<Attempt>,
    pub solved: Option<Attempt>,
}

impl Tally {
    /// How the run's last attempt ended, if it did not give up: done, where
    /// there is a solution.
    pub open spec fn ending<Q>(self) -> Option<Result<Step<Q>, KontekstoError>> {
        match self.solved {
            Some(_) => Some(Ok(Step::Done)),
            None => None,
        }
    }

    /// The attempt that the run returns: the solution if there is one, else
    /// the recorded attempt of least rank, the earliest of several; none if
    /// nothing was recorded.
    pub open spec fn winner(self) -> Option<Attempt> {
        match self.solved {
            Some(a) => Some(a),
            None => match choice(self.bails@.len() as int, ranks_of(self.bails@)) {
                Some(i) => Some(self.bails@[i]),
                None => None,
            },
        }
    }

    /// The attempt that the run returns.
    pub fn into_winner(self) -> (best: Option<Attempt>)
        ensures
            best == self.winner(),
            best is None <==> self.solved is None && self.bails@.len() == 0,
    {
        let Tally { bails, solved } = self;
        match solved {
            Some(a) => Some(a),
            None => best_of(bails),
        }
    }
}

/// The attempt of least rank, the earliest of several; none of no attempts.
pub fn best_of(attempts: Vec<Attempt>) -> (best: Option<Attempt>)
    ensures
        match best {
            Some(a) => choice(attempts@.len() as int, ranks_of(attempts@)) matches Some(i)
                && is_choice(attempts@.len() as int, ranks_of(attempts@), i) && a
                == attempts@[i],
            None => attempts@.len() == 0 && choice(
                attempts@.len() as int,
                ranks_of(attempts@),
            ) is None,
        },
{
    let count: usize = attempts.len();
    let mut ranks: Vec<Option<u32>> = Vec::new();
    let mut k: usize = 0;
    while k < count
        invariant
            k <= count,
            count == attempts@.len(),
            ranks@.len() == k,
            forall|j: int| 0 <= j < k ==> ranks@[j] == Some(attempts@[j].rank),
        decreases count - k,
    {
        ranks.push(Some(attempts[k].rank));
        k = k + 1;
    }
    assert(ranks@ =~= ranks_of(attempts@));
    match choose_neighbor(count, &ranks) {
        Some(index) => {
            let mut rest = attempts;
            Some(rest.swap_remove(index))
        },
        None => {
            proof {
                if count > 0 {
                    assert(scored(count as int, ranks@, 0));
                }
            }
            None
        },
    }
}

/// The attempt from `seed` that took the solver from `start` to `end` gave
/// up.
pub open spec fn gave_up<S: LinearSolver>(start: S, seed: S::Target, end: S) -> bool {
    exists|best: Attempt| #[trigger]
        attempted(start, seed, end, Ok::<Step<S::Target>, KontekstoError>(Step::Bailed(best)))
}

/// Attempt `i` of a run started from seed `i` in the state `starts[i]`, gave
/// up in the state `ends[i]`, had its best attempt there recorded as bail
/// `i`, and a reset then took the solver to `starts[i + 1]`, with nothing
/// scored.
pub open spec fn gave_up_at<S: LinearSolver>(
    seeds: Seq<S::Target>,
    bails: Seq<Attempt>,
    starts: Seq<S>,
    ends: Seq<S>,
    i: int,
) -> bool {
    &&& gave_up(starts[i], seeds[i], ends[i])
    &&& bails[i]@ == ends[i].best()
    &&& ends[i].restarted(&starts[i + 1])
    &&& starts[i + 1].best() == sentinel()
}

/// A run from `start` over the first seeds, one attempt after the other in
/// the order of the seeds, recorded `bails`: every one of these attempts gave
/// up, and `starts` and `ends` are the states in which they began and ended.
/// The last of `starts` is the state after the last reset, in which the next
/// attempt would begin.
pub open spec fn recorded<S: LinearSolver>(
    start: S,
    seeds: Seq<S::Target>,
    bails: Seq<Attempt>,
    starts: Seq<S>,
    ends: Seq<S>,
) -> bool {
    &&& bails.len() <= seeds.len()
    &&& starts.len() == bails.len() + 1
    &&& ends.len() == bails.len()
    &&& starts[0] == start
    &&& forall|i: int| 0 <= i < bails.len() ==> #[trigger] gave_up_at(seeds, bails, starts, ends, i)
}

/// A run from `start` over `seeds` recorded `bails` and left the solver at
/// `end`. With no `ending`, every seed was tried and gave up, and `end` is the
/// state after the last reset. With an `ending`, the attempt from the seed
/// after the recorded ones did not give up: it ended so, in the state `end`,
/// and no later seed was tried.
pub open spec fn ran<S: LinearSolver>(
    start: S,
    seeds: Seq<S::Target>,
    end: S,
    bails: Seq<Attempt>,
    ending: Option<Result<Step<S::Target>, KontekstoError>>,
) -> bool {
    exists|starts: Seq<S>, ends: Seq<S>| #[trigger]
        recorded(start, seeds, bails, starts, ends) && match ending {
            None => bails.len() == seeds.len() && starts.last() == end,
            Some(result) => bails.len() < seeds.len() && !(result matches Ok(Step::Bailed(_)))
                && attempted(starts.last(), seeds[bails.len() as int], end, result),
        }
}

/// `tally` is the record of a run from `start` over `seeds` that left the
/// solver at `end`: its bails are what the run recorded, and its solution, if
/// it has one, is the best attempt of the solver where the run ended, of
/// rank 0.
pub open spec fn tallied<S: LinearSolver>(
    start: S,
    seeds: Seq<S::Target>,
    end: S,
    tally: Tally,
) -> bool {
    &&& ran(start, seeds, end, tally.bails@, tally.ending())
    &&& tally.solved matches Some(solution) ==> solution@ == end.best() && solution.rank == 0
}

/// Runs an attempt from each seed in turn, on one solver, and records how
/// each ended. A solution ends the run with the seeds that are left untried;
/// an attempt that gives up has the solver's best attempt recorded and the
/// solver reset. The first failure of a step ends the run as that failure.
pub fn run_restarts<S: LinearSolver>(solver: &mut S, seeds: Vec<S::Target>) -> (result: Result<
    Tally,
    KontekstoError,
>)
    ensures
        seeds@.len() == 0 ==> *final(solver) == *old(solver),
        result matches Ok(tally) ==> tallied(*old(solver), seeds@, *final(solver), tally),
        result matches Err(e) ==> exists|bails: Seq<Attempt>| #[trigger]
            ran(
                *old(solver),
                seeds@,
                *final(solver),
                bails,
                Some(Err::<Step<S::Target>, KontekstoError>(e)),
            ),
        result matches Ok(tally) && tally.solved is None && seeds@.len() > 0 ==> final(
            solver
        ).best() == sentinel(),
{
    let mut bails: Vec<Attempt> = Vec::new();
    let mut left = seeds;
    let ghost mut starts: Seq<S> = seq![*solver];
    let ghost mut ends: Seq<S> = Seq::empty();
    while left.len() > 0
        invariant
            bails@.len() + left@.len() == seeds@.len(),
            forall|j: int| 0 <= j < left@.len() ==> left@[j] == seeds@[bails@.len() + j],
            recorded(*old(solver), seeds@, bails@, starts, ends),
            starts.last() == *solver,
            bails@.len() == 0 ==> *solver == *old(solver),
            bails@.len() > 0 ==> solver.best() == sentinel(),
        decreases left@.len(),
    {
        let ghost from = *solver;
        let ghost bails_before = bails@;
        let ghost starts_before = starts;
        let ghost ends_before = ends;
        let seed = left.remove(0);
        let ghost handed = seed;
        assert(handed == seeds@[bails@.len() as int]);
        let outcome = solve(seed, solver);
        let ghost ended = outcome;
        let ghost end = *solver;
        match outcome {
            Ok(Step::Done) => {
                let solution = solver.current_best();
                let tally = Tally { bails, solved: Some(solution) };
                proof {
                    assert(tally.ending::<S::Target>() == Some(
                        Ok::<Step<S::Target>, KontekstoError>(Step::Done),
                    ));
                    assert(recorded(*old(solver), seeds@, tally.bails@, starts, ends));
                    assert(ran(
                        *old(solver),
                        seeds@,
                        *solver,
                        tally.bails@,
                        tally.ending::<S::Target>(),
                    ));
                }
                return Ok(tally);
            },
            Ok(_) => {
                let best = solver.current_best();
                bails.push(best);
                solver.reset();
                proof {
                    ends = ends_before.push(end);
                    starts = starts_before.push(*solver);
                    assert(gave_up(from, handed, end)) by {
                        match ended {
                            Ok(Step::Bailed(b)) => {
                                assert(attempted(
                                    from,
                                    handed,
                                    end,
                                    Ok::<Step<S::Target>, KontekstoError>(Step::Bailed(b)),
                                ));
                            },
                            _ => {},
                        }
                    }
                    assert forall|i: int| 0 <= i < bails@.len() implies #[trigger] gave_up_at(
                        seeds@,
                        bails@,
                        starts,
                        ends,
                        i,
                    ) by {
                        if i < bails_before.len() {
                            assert(gave_up_at(seeds@, bails_before, starts_before, ends_before, i));
                        }
                    }
                }
            },
            Err(e) => {
                proof {
                    assert(ran(
                        *old(solver),
                        seeds@,
                        *solver,
                        bails@,
                        Some(Err::<Step<S::Target>, KontekstoError>(e)),
                    ));
                }
                return Err(e);
            },
        }
    }
    let tally = Tally { bails, solved: None };
    proof {
        assert(tally.ending::<S::Target>() is None);
        assert(recorded(*old(solver), seeds@, tally.bails@, starts, ends));
        assert(ran(*old(solver), seeds@, *solver, tally.bails@, tally.ending::<S::Target>()));
    }
    Ok(tally)
}

/// Runs an attempt from each seed in turn and returns the solution as soon as
/// one is found, else the best attempt of all: of the attempts recorded, in
/// the order of the seeds, the one of least rank, the earliest of several.
/// Without seeds there is nothing to return; the first failure of a step ends
/// the run as that failure.
pub fn solve_with_restarts<S: LinearSolver>(solver: &mut S, seeds: Vec<S::Target>) -> (result:
    Result<Attempt, KontekstoError>)
    ensures
        seeds@.len() == 0 ==> *final(solver) == *old(solver) && (result matches Err(e) && e
            == KontekstoError::NoSeeds),
        result matches Ok(a) ==> seeds@.len() > 0 && exists|tally: Tally| #[trigger]
            tallied(*old(solver), seeds@, *final(solver), tally) && tally.winner() == Some(a),
        seeds@.len() > 0 ==> (result matches Err(e) ==> exists|bails: Seq<Attempt>| #[trigger]
            ran(
                *old(solver),
                seeds@,
                *final(solver),
                bails,
                Some(Err::<Step<S::Target>, KontekstoError>(e)),
            )),
        result matches Ok(a) ==> (a.rank == 0 && a@ == final(solver).best()) || final(
            solver
        ).best() == sentinel(),
{
    match run_restarts(solver, seeds) {
        Ok(tally) => {
            proof {
                lemma_tally_has_winner(*old(solver), seeds@, *solver, tally);
            }
            match tally.into_winner() {
                Some(best) => Ok(best),
                None => Err(KontekstoError::NoSeeds),
            }
        },
        Err(e) => Err(e),
    }
}

/// The record of a run has no winner only where there were no seeds.
pub proof fn lemma_tally_has_winner<S: LinearSolver>(
    start: S,
    seeds: Seq<S::Target>,
    end: S,
    tally: Tally,
)
    requires
        tallied(start, seeds, end, tally),
    ensures
        tally.solved is None ==> tally.bails@.len() == seeds.len(),
        tally.solved is Some ==> tally.bails@.len() < seeds.len(),
        tally.winner() is None <==> seeds.len() == 0,
{
    let count = tally.bails@.len() as int;
    let ranks = ranks_of(tally.bails@);
    let found = lemma_choice_exists(count, ranks);
    if tally.solved is None && count > 0 {
        assert(scored(count, ranks, 0));
    }
}

} // verus!
