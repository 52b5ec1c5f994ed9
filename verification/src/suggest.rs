//! What to suggest to a player after a guess of theirs was fed to the search.

use crate::attempt::Attempt;
use crate::step::Step;
use vstd::prelude::*;

verus! {

/// Where the next suggestion comes from.
#[derive(Debug)]
pub enum Suggestion<T> {
    /// This word itself.
    Word(String),
    /// The unexplored word nearest to this query.
    Near(T),
    /// The unexplored word nearest to where this word lies.
    NearWord(String),
}

/// Plans the next suggestion from how the step on the player's guess ended.
///
/// Where the search goes on, the suggestion is looked up near the next query,
/// unless the attempt just made ranks worse than the best attempt before the
/// step: then it is looked up near that best attempt's word. Where the search
/// is done, the best attempt's word is the suggestion. A search that gave up
/// has nothing to suggest.
pub fn plan_suggestion<T>(previous_best: Attempt, outcome: Step<T>, best: Attempt) -> (plan:
    Option<Suggestion<T>>)
    ensures
        match outcome {
            Step::Next(attempt, query) => if attempt.rank > previous_best.rank {
                plan == Some(Suggestion::<T>::NearWord(previous_best.word))
            } else {
                plan == Some(Suggestion::<T>::Near(query))
            },
            Step::Done => plan == Some(Suggestion::<T>::Word(best.word)),
            Step::Bailed(_) => plan is None,
        },
{
    match outcome {
        Step::Next(attempt, query) => {
            if attempt.rank > previous_best.rank {
                Some(Suggestion::NearWord(previous_best.word))
            } else {
                Some(Suggestion::Near(query))
            }
        },
        Step::Done => Some(Suggestion::Word(best.word)),
        Step::Bailed(_) => None,
    }
}

} // verus!
