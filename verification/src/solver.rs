//! The state of one search and the step that advances it.
//!
//! A step has work on both sides of this crate. The caller asks
//! [`Solver::begin_step`] whether the attempt is over and, if not, what to
//! look up; looks up the nearest neighbours of the query, has each scored,
//! and hands all of it to [`Solver::next_step`], which decides. Where the
//! decision is to move, the caller does the arithmetic on the coordinates and
//! hands the result to [`Solver::commit_move`].

use crate::attempt::{sentinel, Attempt};
use crate::config::OptimizerConfig;
use crate::errors::KontekstoError;
use crate::selection::{choice, choose_neighbor};
use crate::filter::{none_of, tabu_filter, word_conditions};
use crate::step::{
    spell, words_of, Advance, Entry, Lookup, Step, Verdict, NEIGHBORS_PER_STEP,
};
use vstd::prelude::*;

verus! {

/// What a solver holds, as plain mathematical values.
pub struct SearchState<T> {
    /// How many steps this attempt has taken.
    pub iter: nat,
    /// The momentum; `None` is the zero vector, of no length yet.
    pub momentum: Option<Seq<T>>,
    /// The best attempt seen in this attempt.
    pub best: (Seq<char>, u32),
    /// The words already explored, oldest first.
    pub tabu: Seq<Seq<char>>,
    /// The settings.
    pub settings: OptimizerConfig<T>,
}

/// What a step returns, as plain mathematical values.
pub enum Outcome {
    /// The attempt is out of steps; its best attempt is handed back.
    Bailed((Seq<char>, u32)),
    /// The step failed.
    Failed(KontekstoError),
    /// The chosen neighbour is the solution.
    Done,
    /// The chosen neighbour is beyond the margin: the query stays.
    Stay((Seq<char>, u32)),
    /// The query is to be moved towards the chosen neighbour.
    Advance { index: int, previous_best_rank: u32 },
}

/// The lengths of the embeddings of some entries, in their order.
pub open spec fn dims_of<T>(entries: Seq<Entry<T>>) -> Seq<nat> {
    Seq::new(entries.len(), |i: int| entries[i].embedding@.len())
}

impl<T> SearchState<T> {
    /// The state at the start of an attempt.
    pub open spec fn fresh(settings: OptimizerConfig<T>) -> Self {
        SearchState {
            iter: 0,
            momentum: None,
            best: sentinel(),
            tabu: Seq::empty(),
            settings,
        }
    }

    /// The attempt is out of steps.
    pub open spec fn bails(self) -> bool {
        self.iter >= self.settings.max_iters
    }

    /// How many more steps the attempt has room for.
    pub open spec fn steps_left(self) -> nat {
        if self.bails() {
            0
        } else {
            (self.settings.max_iters - self.iter) as nat
        }
    }

    /// The best attempt once a neighbour with this word and rank was chosen.
    pub open spec fn best_with(self, word: Seq<char>, rank: u32) -> (Seq<char>, u32) {
        if rank < self.best.1 {
            (word, rank)
        } else {
            self.best
        }
    }

    /// The state after a step in which the index returned neighbours with
    /// these words and the oracle gave these answers.
    pub open spec fn after_step(self, words: Seq<Seq<char>>, ranks: Seq<Option<u32>>) -> Self {
        if self.bails() {
            self
        } else {
            SearchState {
                iter: self.iter + 1,
                tabu: self.tabu + words,
                best: match choice(words.len() as int, ranks) {
                    Some(i) => self.best_with(words[i], ranks[i].unwrap()),
                    None => self.best,
                },
                ..self
            }
        }
    }

    /// A move from a query of this length to a neighbour of that length is
    /// possible with the momentum kept so far.
    pub open spec fn fits(self, query_len: nat, chosen_len: nat) -> bool {
        &&& chosen_len == query_len
        &&& self.momentum matches Some(m) ==> m.len() == query_len
    }

    /// What that step returns, for a query of length `query_len` and
    /// neighbours whose embeddings have the lengths `dims`.
    pub open spec fn outcome(
        self,
        query_len: nat,
        words: Seq<Seq<char>>,
        dims: Seq<nat>,
        ranks: Seq<Option<u32>>,
    ) -> Outcome {
        if self.bails() {
            Outcome::Bailed(self.best)
        } else {
            match choice(words.len() as int, ranks) {
                None => Outcome::Failed(KontekstoError::NoScorableNeighbors),
                Some(i) => {
                    let rank = ranks[i].unwrap();
                    if rank > self.settings.margin {
                        Outcome::Stay((words[i], rank))
                    } else if rank == 0 {
                        Outcome::Done
                    } else if !self.fits(query_len, dims[i]) {
                        Outcome::Failed(KontekstoError::DimensionMismatch)
                    } else {
                        Outcome::Advance { index: i, previous_best_rank: self.best.1 }
                    }
                },
            }
        }
    }

    /// The state once a move was committed with this momentum.
    pub open spec fn with_momentum(self, momentum: Seq<T>) -> Self {
        SearchState { momentum: Some(momentum), ..self }
    }

    /// The state after one round: the step, and then the commit of a move
    /// with the momentum `committed`, where one followed the step.
    pub open spec fn after_round(
        self,
        words: Seq<Seq<char>>,
        ranks: Seq<Option<u32>>,
        committed: Option<Seq<T>>,
    ) -> Self {
        match committed {
            Some(momentum) => self.after_step(words, ranks).with_momentum(momentum),
            None => self.after_step(words, ranks),
        }
    }
}

/// The result of a step is the one that `outcome` describes.
pub open spec fn agrees<T>(
    result: Result<Verdict<T>, KontekstoError>,
    outcome: Outcome,
    query: Vec<T>,
    neighbors: Seq<Entry<T>>,
    ranks: Seq<Option<u32>>,
) -> bool {
    match outcome {
        Outcome::Bailed(best) => result matches Ok(Verdict::Settled(Step::Bailed(b))) && b@
            == best,
        Outcome::Failed(error) => result matches Err(e) && e == error,
        Outcome::Done => result matches Ok(Verdict::Settled(Step::Done)),
        Outcome::Stay(attempt) => result matches Ok(Verdict::Settled(Step::Next(a, q))) && a@
            == attempt && q == query,
        Outcome::Advance { index, previous_best_rank } => result matches Ok(Verdict::Advance(m))
            && m.attempt@ == (neighbors[index].word@, ranks[index].unwrap()) && m.origin == query
            && m.chosen == neighbors[index].embedding && m.previous_best_rank
            == previous_best_rank && m.chosen_rank == ranks[index].unwrap(),
    }
}

/// The search state of one solver. It is changed by the step and by `reset`
/// only.
pub struct Solver<T> {
    iter: usize,
    momentum: Option<Vec<T>>,
    best: Attempt,
    blacklist: Vec<String>,
    settings: OptimizerConfig<T>,
}

impl<T> View for Solver<T> {
    type V = SearchState<T>;

    closed spec fn view(&self) -> SearchState<T> {
        SearchState {
            iter: self.iter as nat,
            momentum: match self.momentum {
                Some(m) => Some(m@),
                None => None,
            },
            best: self.best@,
            tabu: spell(self.blacklist@),
            settings: self.settings,
        }
    }
}

impl<T> Solver<T> {
    /// A solver at the start of its first attempt.
    pub fn new(settings: OptimizerConfig<T>) -> (solver: Self)
        ensures
            solver@ == SearchState::fresh(settings),
    {
        let solver = Solver {
            iter: 0,
            momentum: None,
            best: Attempt::sentinel(),
            blacklist: Vec::new(),
            settings,
        };
        assert(spell(solver.blacklist@) =~= Seq::<Seq<char>>::empty());
        solver
    }

    /// The best attempt seen in this attempt.
    pub fn current_best(&self) -> (best: Attempt)
        ensures
            best@ == self@.best,
    {
        self.best.duplicate()
    }

    /// Puts the solver back to the start of an attempt: no step taken, no
    /// momentum, nothing scored, nothing excluded. The settings stay.
    pub fn reset(&mut self)
        ensures
            final(self)@ == SearchState::fresh(old(self)@.settings),
    {
        self.best = Attempt::sentinel();
        self.blacklist.clear();
        self.momentum = None;
        self.iter = 0;
        assert(spell(self.blacklist@) =~= Seq::<Seq<char>>::empty());
    }

    /// Excludes these words from the neighbours that later steps explore.
    pub fn ban_words(&mut self, words: Vec<String>)
        ensures
            final(self)@ == (SearchState { tabu: old(self)@.tabu + spell(words@), ..old(self)@ }),
    {
        let mut incoming = words;
        self.blacklist.append(&mut incoming);
        assert(spell(self.blacklist@) =~= spell(old(self).blacklist@) + spell(words@));
    }

    /// Whether the attempt is out of steps, and if so its best attempt.
    /// Nothing changes.
    pub fn bail_check(&self) -> (bailed: Option<Attempt>)
        ensures
            match bailed {
                Some(best) => self@.bails() && best@ == self@.best,
                None => !self@.bails(),
            },
    {
        if self.iter >= self.settings.max_iters {
            Some(self.best.duplicate())
        } else {
            None
        }
    }

    /// How the next step begins: out of steps, with the best attempt handed
    /// back; else with a lookup of as many neighbours as a step asks for,
    /// among the points whose word has not been explored. Nothing changes.
    pub fn begin_step(&self) -> (lookup: Lookup)
        ensures
            match lookup {
                Lookup::Bailed(best) => self@.bails() && best@ == self@.best,
                Lookup::Explore { exclude, limit } => !self@.bails() && exclude == none_of(
                    word_conditions(self@.tabu),
                ) && limit == NEIGHBORS_PER_STEP,
            },
    {
        match self.bail_check() {
            Some(best) => Lookup::Bailed(best),
            None => Lookup::Explore {
                exclude: tabu_filter(&self.blacklist),
                limit: NEIGHBORS_PER_STEP,
            },
        }
    }

    /// One step of the search, from the query, the neighbours that the index
    /// returned for it (with the words of `tabu` excluded) and the oracle's
    /// answers, neighbour `i` paired with answer `i`; `None` is a failed call.
    ///
    /// Out of steps, nothing changes and the best attempt is handed back.
    /// Otherwise the step counts, every neighbour's word is excluded from now
    /// on, the scored neighbour of least rank is chosen (the first of several),
    /// the best attempt follows it where it is better, and then: beyond the
    /// margin the query stays; at rank 0 the search is done; else the query is
    /// to be moved, if the lengths allow it.
    pub fn next_step(
        &mut self,
        query: Vec<T>,
        neighbors: Vec<Entry<T>>,
        ranks: Vec<Option<u32>>,
    ) -> (result: Result<Verdict<T>, KontekstoError>)
        ensures
            final(self)@ == old(self)@.after_step(words_of(neighbors@), ranks@),
            agrees(
                result,
                old(self)@.outcome(
                    query@.len(),
                    words_of(neighbors@),
                    dims_of(neighbors@),
                    ranks@,
                ),
                query,
                neighbors@,
                ranks@,
            ),
    {
        if self.iter >= self.settings.max_iters {
            return Ok(Verdict::Settled(Step::Bailed(self.best.duplicate())));
        }
        self.iter = self.iter + 1;

        let count: usize = neighbors.len();
        let mut k: usize = 0;
        while k < count
            invariant
                k <= count,
                count == neighbors@.len(),
                self.blacklist@.len() == old(self).blacklist@.len() + k,
                forall|j: int|
                    0 <= j < old(self).blacklist@.len() ==> self.blacklist@[j] == old(
                        self
                    ).blacklist@[j],
                forall|j: int|
                    0 <= j < k ==> self.blacklist@[old(self).blacklist@.len() + j]
                        == neighbors@[j].word,
                self.iter == old(self).iter + 1,
                self.best == old(self).best,
                self.momentum == old(self).momentum,
                self.settings == old(self).settings,
            decreases count - k,
        {
            self.blacklist.push(neighbors[k].word.clone());
            k = k + 1;
        }
        assert(spell(self.blacklist@) =~= spell(old(self).blacklist@) + words_of(neighbors@));

        let ghost words = words_of(neighbors@);
        let ghost dims = dims_of(neighbors@);
        let ghost entries = neighbors@;
        let picked = choose_neighbor(count, &ranks);
        let index: usize = match picked {
            Some(index) => index,
            None => {
                return Err(KontekstoError::NoScorableNeighbors);
            },
        };
        let rank: u32 = match ranks[index] {
            Some(rank) => rank,
            None => 0,
        };
        let mut rest = neighbors;
        let chosen = rest.swap_remove(index);
        assert(chosen == entries[index as int]);
        assert(chosen.word@ == words[index as int]);
        assert(chosen.embedding@.len() == dims[index as int]);

        let previous_best_rank: u32 = self.best.rank;
        if rank < previous_best_rank {
            self.best = Attempt::new(chosen.word.clone(), rank);
        }
        let attempt = Attempt::new(chosen.word, rank);
        if rank > self.settings.margin {
            return Ok(Verdict::Settled(Step::Next(attempt, query)));
        }
        if rank == 0 {
            return Ok(Verdict::Settled(Step::Done));
        }
        let fits: bool = chosen.embedding.len() == query.len() && match &self.momentum {
            Some(m) => m.len() == query.len(),
            None => true,
        };
        if !fits {
            return Err(KontekstoError::DimensionMismatch);
        }
        Ok(
            Verdict::Advance(
                Advance {
                    attempt,
                    origin: query,
                    chosen: chosen.embedding,
                    previous_best_rank,
                    chosen_rank: rank,
                },
            ),
        )
    }

    /// Ends a step that decided to move: keeps the new momentum and hands on
    /// the next query. Momentum and query must have the same length, and that
    /// of the momentum kept so far, if there is one; else nothing changes.
    pub fn commit_move(
        &mut self,
        attempt: Attempt,
        momentum: Vec<T>,
        next_query: Vec<T>,
    ) -> (result: Result<Step<Vec<T>>, KontekstoError>)
        ensures
            old(self)@.fits(next_query@.len(), momentum@.len()) ==> {
                &&& final(self)@ == old(self)@.with_momentum(momentum@)
                &&& result matches Ok(Step::Next(a, q))
                &&& a == attempt
                &&& q == next_query
            },
            !old(self)@.fits(next_query@.len(), momentum@.len()) ==> {
                &&& final(self)@ == old(self)@
                &&& result matches Err(e)
                &&& e == KontekstoError::DimensionMismatch
            },
    {
        let fits: bool = momentum.len() == next_query.len() && match &self.momentum {
            Some(m) => m.len() == next_query.len(),
            None => true,
        };
        if !fits {
            return Err(KontekstoError::DimensionMismatch);
        }
        self.momentum = Some(momentum);
        Ok(Step::Next(attempt, next_query))
    }

    /// How many steps this attempt has taken.
    pub fn iterations(&self) -> (n: usize)
        ensures
            n == self@.iter,
    {
        self.iter
    }

    /// The words excluded from exploration, oldest first.
    pub fn tabu(&self) -> (words: &Vec<String>)
        ensures
            spell(words@) == self@.tabu,
    {
        &self.blacklist
    }

    /// The settings.
    pub fn settings(&self) -> (settings: &OptimizerConfig<T>)
        ensures
            *settings == self@.settings,
    {
        &self.settings
    }

    /// The momentum kept so far; `None` stands for the zero vector.
    pub fn momentum(&self) -> (momentum: Option<&Vec<T>>)
        ensures
            match momentum {
                Some(m) => self@.momentum == Some(m@),
                None => self@.momentum is None,
            },
    {
        self.momentum.as_ref()
    }
}

} // verus!
