//! What the index hands in and what a step hands back.

use crate::attempt::Attempt;
use qdrant_client::qdrant::Filter;
use vstd::prelude::*;

verus! {

/// How many neighbours a step asks the index for.
pub const NEIGHBORS_PER_STEP: u64 = 3;

/// A point of the index: a word and where it lies in the embedding space.
/// The coordinates are of a type `T` that this crate only carries.
#[derive(Debug)]
pub struct Entry<T> {
    pub word: String,
    pub embedding: Vec<T>,
}

/// The words of some entries, in their order.
pub open spec fn words_of<T>(entries: Seq<Entry<T>>) -> Seq<Seq<char>> {
    Seq::new(entries.len(), |i: int| entries[i].word@)
}

/// The words of a list, each taken as its characters.
pub open spec fn spell(words: Seq<String>) -> Seq<Seq<char>> {
    Seq::new(words.len(), |i: int| words[i]@)
}

/// How a step begins.
#[derive(Debug)]
pub enum Lookup {
    /// The attempt is out of steps; this is the best attempt it saw.
    Bailed(Attempt),
    /// The index is to be asked for at most `limit` neighbours of the query
    /// among the points that `exclude` lets pass.
    Explore { exclude: Filter, limit: u64 },
}

/// How one step of a search ended.
#[derive(Debug)]
pub enum Step<T> {
    /// The word was found.
    Done,
    /// The search gave up; this is the best attempt it saw.
    Bailed(Attempt),
    /// The search goes on: the attempt just made, and the query for the next
    /// step.
    Next(Attempt, T),
}

/// What is needed to move the query once a neighbour was chosen and the search
/// neither stays nor stops. Origin, chosen embedding and any momentum kept so
/// far have the same length.
#[derive(Debug)]
pub struct Advance<T> {
    /// The chosen neighbour and its rank.
    pub attempt: Attempt,
    /// The query that the step started from.
    pub origin: Vec<T>,
    /// Where the chosen neighbour lies.
    pub chosen: Vec<T>,
    /// The best rank as it was before this step.
    pub previous_best_rank: u32,
    /// The rank of the chosen neighbour; never 0.
    pub chosen_rank: u32,
}

/// What a step decided.
#[derive(Debug)]
pub enum Verdict<T> {
    /// The step is over with this outcome.
    Settled(Step<Vec<T>>),
    /// The query is to be moved towards the chosen neighbour.
    Advance(Advance<T>),
}

} // verus!
