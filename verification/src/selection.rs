//! Which of the neighbours explored in a step is chosen.
//!
//! The index hands back neighbours in its own order, and the oracle answers for
//! each of them or fails. Neighbour `i` is paired with answer `i`; a neighbour
//! without an answer, or whose answer is a failure, is not scored. The chosen
//! neighbour is the scored one of least rank, and among several of that rank
//! the one the index returned first.

use vstd::prelude::*;

verus! {

/// Neighbour `i`, of `count` neighbours, has a rank.
pub open spec fn scored(count: int, ranks: Seq<Option<u32>>, i: int) -> bool {
    0 <= i < count && i < ranks.len() && ranks[i] is Some
}

/// Neighbour `i` is the one to choose: it is scored, no scored neighbour has a
/// lower rank, and every scored neighbour before it has a higher one.
pub open spec fn is_choice(count: int, ranks: Seq<Option<u32>>, i: int) -> bool {
    &&& scored(count, ranks, i)
    &&& forall|j: int| #[trigger]
        scored(count, ranks, j) ==> if j < i {
            ranks[i].unwrap() < ranks[j].unwrap()
        } else {
            ranks[i].unwrap() <= ranks[j].unwrap()
        }
}

/// The neighbour to choose, if any is scored.
pub open spec fn choice(count: int, ranks: Seq<Option<u32>>) -> Option<int> {
    if exists|i: int| is_choice(count, ranks, i) {
        Some(choose|i: int| is_choice(count, ranks, i))
    } else {
        None
    }
}

/// At most one neighbour is the one to choose.
pub proof fn lemma_choice_unique(count: int, ranks: Seq<Option<u32>>, i: int, j: int)
    requires
        is_choice(count, ranks, i),
        is_choice(count, ranks, j),
    ensures
        i == j,
{
    assert(scored(count, ranks, i));
    assert(scored(count, ranks, j));
}

/// `choice` is the one neighbour that `is_choice` singles out.
pub proof fn lemma_choice_is(count: int, ranks: Seq<Option<u32>>, i: int)
    requires
        is_choice(count, ranks, i),
    ensures
        choice(count, ranks) == Some(i),
{
    let k = choose|k: int| is_choice(count, ranks, k);
    lemma_choice_unique(count, ranks, i, k);
}

/// Without a scored neighbour there is nothing to choose.
pub proof fn lemma_choice_none(count: int, ranks: Seq<Option<u32>>)
    requires
        forall|j: int| !scored(count, ranks, j),
    ensures
        choice(count, ranks) is None,
{
    assert forall|i: int| !is_choice(count, ranks, i) by {
        assert(!scored(count, ranks, i));
    }
}

/// Some neighbour is singled out as soon as one is scored, and its rank is
/// the least of all.
pub proof fn lemma_choice_exists(count: int, ranks: Seq<Option<u32>>) -> (found: Option<int>)
    ensures
        found == choice(count, ranks),
        match found {
            Some(i) => is_choice(count, ranks, i),
            None => forall|j: int| !scored(count, ranks, j),
        },
    decreases count,
{
    if count <= 0 {
        assert forall|j: int| !scored(count, ranks, j) by {}
        lemma_choice_none(count, ranks);
        None
    } else {
        let before = lemma_choice_exists(count - 1, ranks);
        let last = count - 1;
        let found = if scored(count, ranks, last) {
            match before {
                Some(p) => if ranks[last].unwrap() < ranks[p].unwrap() {
                    Some(last)
                } else {
                    Some(p)
                },
                None => Some(last),
            }
        } else {
            before
        };
        match found {
            Some(i) => {
                assert forall|j: int| #[trigger] scored(count, ranks, j) implies if j < i {
                    ranks[i].unwrap() < ranks[j].unwrap()
                } else {
                    ranks[i].unwrap() <= ranks[j].unwrap()
                } by {
                    if j < last {
                        assert(scored(count - 1, ranks, j));
                    }
                }
                assert(scored(count, ranks, i)) by {
                    if i < last {
                        assert(scored(count - 1, ranks, i));
                    }
                }
                lemma_choice_is(count, ranks, i);
            },
            None => {
                assert forall|j: int| !scored(count, ranks, j) by {
                    if j < last {
                        assert(!scored(count - 1, ranks, j));
                    }
                }
                lemma_choice_none(count, ranks);
            },
        }
        found
    }
}

/// Finds the neighbour to choose among `count` neighbours with these answers.
pub fn choose_neighbor(count: usize, ranks: &Vec<Option<u32>>) -> (picked: Option<usize>)
    ensures
        match picked {
            Some(i) => choice(count as int, ranks@) == Some(i as int) && is_choice(
                count as int,
                ranks@,
                i as int,
            ),
            None => choice(count as int, ranks@) is None && forall|j: int|
                !scored(count as int, ranks@, j),
        },
{
    let limit: usize = if count < ranks.len() {
        count
    } else {
        ranks.len()
    };
    let mut picked: Option<usize> = None;
    let mut least: u32 = 0;
    let mut i: usize = 0;
    while i < limit
        invariant
            i <= limit,
            limit <= count,
            limit <= ranks.len(),
            match picked {
                Some(p) => p < i && is_choice(i as int, ranks@, p as int) && ranks@[p as int]
                    == Some(least),
                None => forall|j: int| !scored(i as int, ranks@, j),
            },
        decreases limit - i,
    {
        match ranks[i] {
            Some(rank) => {
                let better: bool = match picked {
                    Some(_) => rank < least,
                    None => true,
                };
                if better {
                    picked = Some(i);
                    least = rank;
                }
            },
            None => {},
        }
        proof {
            let p = picked.unwrap() as int;
            let next = i as int + 1;
            if picked is Some {
                assert forall|j: int| #[trigger]
                    scored(next, ranks@, j) implies if j < p {
                    ranks@[p].unwrap() < ranks@[j].unwrap()
                } else {
                    ranks@[p].unwrap() <= ranks@[j].unwrap()
                } by {
                    if j < i {
                        assert(scored(i as int, ranks@, j));
                    }
                }
            } else {
                assert forall|j: int| !scored(next, ranks@, j) by {
                    if j < i {
                        assert(!scored(i as int, ranks@, j));
                    }
                }
            }
        }
        i = i + 1;
    }
    proof {
        match picked {
            Some(p) => {
                assert forall|j: int| #[trigger]
                    scored(count as int, ranks@, j) implies if j < p {
                    ranks@[p as int].unwrap() < ranks@[j].unwrap()
                } else {
                    ranks@[p as int].unwrap() <= ranks@[j].unwrap()
                } by {
                    assert(scored(limit as int, ranks@, j));
                }
                lemma_choice_is(count as int, ranks@, p as int);
            },
            None => {
                assert forall|j: int| !scored(count as int, ranks@, j) by {
                    assert(!scored(limit as int, ranks@, j));
                }
                lemma_choice_none(count as int, ranks@);
            },
        }
    }
    picked
}

} // verus!
