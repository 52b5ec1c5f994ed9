//! A recorded game, played again.
//!
//! A record holds, round by round, what the index and the oracle answered and
//! where the move of that round led. Played again on a fresh solver, it takes
//! the search through the same decisions without index or oracle.

use crate::attempt::Attempt;
use crate::config::OptimizerConfig;
use crate::errors::KontekstoError;
use crate::laws::{law_step_keeps_progress, law_step_meets_protocol};
use crate::restart::{attempted, is_attempt, LinearSolver};
use crate::solver::{dims_of, Outcome, SearchState, Solver};
use crate::step::{words_of, Entry, Step, Verdict};
use vstd::prelude::*;

verus! {

/// What one round was handed: the neighbours that the index returned, the
/// oracle's answers to them, and the momentum and the next query of the move,
/// which are used only where the step decides to move.
#[derive(Debug)]
pub struct Round<T> {
    pub neighbors: Vec<Entry<T>>,
    pub ranks: Vec<Option<u32>>,
    pub momentum: Vec<T>,
    pub next_query: Vec<T>,
}

/// A solver that takes its rounds from a record.
pub struct Replay<T> {
    solver: Solver<T>,
    /// The rounds still to play, the next one last.
    rounds: Vec<Round<T>>,
}

/// A step on the state `before`, from the query `prev`, with what `round`
/// holds, leaves the state `after` and returns `result`: the step decides as
/// a solver's step does, and a move is committed with the round's momentum
/// and leads to the round's next query.
pub open spec fn played<T>(
    before: SearchState<T>,
    prev: Vec<T>,
    round: Round<T>,
    after: SearchState<T>,
    result: Result<Step<Vec<T>>, KontekstoError>,
) -> bool {
    let words = words_of(round.neighbors@);
    let ranks = round.ranks@;
    let stepped = before.after_step(words, ranks);
    match before.outcome(prev@.len(), words, dims_of(round.neighbors@), ranks) {
        Outcome::Bailed(best) => after == stepped && (result matches Ok(Step::Bailed(b)) && b@
            == best),
        Outcome::Failed(error) => after == stepped && (result matches Err(e) && e == error),
        Outcome::Done => after == stepped && result matches Ok(Step::Done),
        Outcome::Stay(attempt) => after == stepped && (result matches Ok(Step::Next(a, q)) && a@
            == attempt && q == prev),
        Outcome::Advance { index, .. } => if stepped.fits(
            round.next_query@.len(),
            round.momentum@.len(),
        ) {
            after == stepped.with_momentum(round.momentum@) && (result matches Ok(
                Step::Next(a, q),
            ) && a@ == (words[index], ranks[index].unwrap()) && q == round.next_query)
        } else {
            after == stepped && (result matches Err(e) && e
                == KontekstoError::DimensionMismatch)
        },
    }
}

impl<T> Replay<T> {
    /// The state of the search.
    pub closed spec fn state(&self) -> SearchState<T> {
        self.solver@
    }

    /// The rounds still to play, the next one first.
    pub closed spec fn left(&self) -> Seq<Round<T>> {
        Seq::new(self.rounds@.len(), |i: int| self.rounds@[self.rounds@.len() - 1 - i])
    }

    /// A fresh solver with these settings, and `rounds` to play, the first
    /// one first.
    pub fn new(settings: OptimizerConfig<T>, rounds: Vec<Round<T>>) -> (replay: Self)
        ensures
            replay.state() == SearchState::fresh(settings),
            replay.left() == rounds@,
    {
        let mut pending = rounds;
        let mut reversed: Vec<Round<T>> = Vec::new();
        while pending.len() > 0
            invariant
                reversed@.len() + pending@.len() == rounds@.len(),
                forall|j: int| 0 <= j < pending@.len() ==> pending@[j] == rounds@[j],
                forall|j: int|
                    0 <= j < reversed@.len() ==> reversed@[j] == rounds@[rounds@.len() - 1 - j],
            decreases pending@.len(),
        {
            let round = pending.pop();
            match round {
                Some(round) => {
                    reversed.push(round);
                },
                None => {},
            }
        }
        let replay = Replay { solver: Solver::new(settings), rounds: reversed };
        assert(replay.left() =~= rounds@);
        replay
    }

    /// How many rounds are still to play.
    pub fn rounds_left(&self) -> (count: usize)
        ensures
            count == self.left().len(),
    {
        self.rounds.len()
    }

    /// The solver that plays the rounds.
    pub fn solver(&self) -> (solver: &Solver<T>)
        ensures
            solver@ == self.state(),
    {
        &self.solver
    }
}

impl<T> LinearSolver for Replay<T> {
    type Target = Vec<T>;

    open spec fn best(&self) -> (Seq<char>, u32) {
        self.state().best
    }

    open spec fn steps_left(&self) -> nat {
        self.state().steps_left()
    }

    /// Out of steps, the solver gives up and nothing changes. With no round
    /// left to play, the step fails as a lookup in the index would, and
    /// nothing changes. Else the next round is used up and played.
    open spec fn stepped(
        &self,
        prev: Vec<T>,
        after: &Self,
        result: Result<Step<Vec<T>>, KontekstoError>,
    ) -> bool {
        if self.state().bails() {
            &&& after.state() == self.state()
            &&& after.left() == self.left()
            &&& result matches Ok(Step::Bailed(b)) && b@ == self.state().best
        } else if self.left().len() == 0 {
            &&& after.state() == self.state()
            &&& after.left() == self.left()
            &&& result matches Err(e) && e == KontekstoError::IndexError
        } else {
            &&& after.left() == self.left().skip(1)
            &&& played(self.state(), prev, self.left()[0], after.state(), result)
        }
    }

    /// A reset puts the search back to the start and leaves the rounds still
    /// to play as they are.
    open spec fn restarted(&self, after: &Self) -> bool {
        &&& after.state() == SearchState::fresh(self.state().settings)
        &&& after.left() == self.left()
    }

    fn next_step(&mut self, prev: Vec<T>) -> (result: Result<Step<Vec<T>>, KontekstoError>) {
        match self.solver.bail_check() {
            Some(best) => {
                return Ok(Step::Bailed(best));
            },
            None => {},
        }
        let ghost before = self.solver@;
        let ghost left_before = self.left();
        let round = match self.rounds.pop() {
            Some(round) => round,
            None => {
                assert(self.left() =~= left_before);
                return Err(KontekstoError::IndexError);
            },
        };
        assert(self.left() =~= left_before.skip(1));
        assert(round == left_before[0]);
        let ghost played_round = round;
        let Round { neighbors, ranks, momentum, next_query } = round;
        proof {
            law_step_keeps_progress(before, words_of(neighbors@), ranks@);
            law_step_meets_protocol(
                before,
                prev@.len(),
                words_of(neighbors@),
                dims_of(neighbors@),
                ranks@,
            );
        }
        match self.solver.next_step(prev, neighbors, ranks) {
            Ok(Verdict::Settled(step)) => Ok(step),
            Ok(Verdict::Advance(step)) => self.solver.commit_move(
                step.attempt,
                momentum,
                next_query,
            ),
            Err(e) => Err(e),
        }
    }

    fn current_best(&self) -> (best: Attempt) {
        self.solver.current_best()
    }

    fn reset(&mut self) {
        let ghost left_before = self.left();
        self.solver.reset();
        assert(self.left() =~= left_before);
    }
}

/// An attempt of a replay takes at most one step more than its solver has
/// steps left. With none left it takes one step: it gives up at once, hands
/// back the best attempt, plays no round and changes nothing.
pub proof fn law_replay_attempt_is_bounded<T>(
    start: Replay<T>,
    seed: Vec<T>,
    end: Replay<T>,
    result: Result<Step<Vec<T>>, KontekstoError>,
)
    requires
        attempted(start, seed, end, result),
    ensures
        exists|
            states: Seq<Replay<T>>,
            queries: Seq<Vec<T>>,
            results: Seq<Result<Step<Vec<T>>, KontekstoError>>,
        |
            #[trigger] is_attempt(states, queries, results) && states[0] == start && queries[0]
                == seed && states.last() == end && results.last() == result && results.len()
                <= start.state().steps_left() + 1,
        start.state().bails() ==> end.state() == start.state() && end.left() == start.left() && (
        result matches Ok(Step::Bailed(b)) && b@ == start.state().best),
{
}

} // verus!
