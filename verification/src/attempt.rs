//! A guessed word together with the rank the oracle gave it.

use vstd::prelude::*;

verus! {

/// The rank of an attempt that has not been scored yet: the largest rank.
pub const SENTINEL_RANK: u32 = u32::MAX;

/// A word and its rank. Rank 0 is the solution; a lower rank is closer.
/// Attempts are compared by rank alone.
#[derive(Debug)]
pub struct Attempt {
    pub word: String,
    pub rank: u32,
}

impl View for Attempt {
    type V = (Seq<char>, u32);

    open spec fn view(&self) -> (Seq<char>, u32) {
        (self.word@, self.rank)
    }
}

/// The attempt that stands for "nothing scored yet": no word, largest rank.
pub open spec fn sentinel() -> (Seq<char>, u32) {
    (Seq::<char>::empty(), SENTINEL_RANK)
}

impl Attempt {
    /// Pairs a word with its rank.
    pub fn new(word: String, rank: u32) -> (a: Self)
        ensures
            a.word == word,
            a.rank == rank,
    {
        Attempt { word, rank }
    }

    /// The attempt that stands for "nothing scored yet".
    pub fn sentinel() -> (a: Self)
        ensures
            a@ == sentinel(),
    {
        Attempt { word: String::new(), rank: SENTINEL_RANK }
    }

    /// Whether this attempt is the solution.
    pub fn is_solved(&self) -> (b: bool)
        ensures
            b == (self.rank == 0),
    {
        self.rank == 0
    }

    /// A copy with the same word and rank.
    pub fn duplicate(&self) -> (a: Self)
        ensures
            a == *self,
    {
        Attempt { word: self.word.clone(), rank: self.rank }
    }
}

} // verus!
