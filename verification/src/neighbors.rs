//! From the points of an index's answer to the neighbours of a step.

use crate::step::Entry;
use vstd::prelude::*;

verus! {

/// A point as the index returns it: its word, if its payload holds one, and
/// its vector, if one was sent along.
#[derive(Debug)]
pub struct Point<T> {
    pub word: Option<String>,
    pub vector: Option<Vec<T>>,
}

/// The neighbours among some points: each point that has both a word and a
/// vector, with its own word and its own vector, in the order of the points.
/// A point that lacks either is left out.
pub open spec fn neighbors_in<T>(points: Seq<Point<T>>) -> Seq<Entry<T>>
    decreases points.len(),
{
    if points.len() == 0 {
        Seq::empty()
    } else {
        match (points[0].word, points[0].vector) {
            (Some(word), Some(embedding)) => seq![Entry { word, embedding }] + neighbors_in(
                points.skip(1),
            ),
            _ => neighbors_in(points.skip(1)),
        }
    }
}

/// Every neighbour among some points has the word and the vector of one and
/// the same point, and neighbours stand in the order of their points.
pub proof fn lemma_neighbors_come_from_points<T>(points: Seq<Point<T>>) -> (from: Seq<int>)
    ensures
        from.len() == neighbors_in(points).len(),
        forall|i: int|
            0 <= i < from.len() ==> 0 <= #[trigger] from[i] < points.len() && points[from[i]].word
                == Some(neighbors_in(points)[i].word) && points[from[i]].vector == Some(
                neighbors_in(points)[i].embedding,
            ),
        forall|i: int, j: int| 0 <= i < j < from.len() ==> from[i] < from[j],
    decreases points.len(),
{
    if points.len() == 0 {
        Seq::empty()
    } else {
        let rest = lemma_neighbors_come_from_points(points.skip(1));
        let shifted = Seq::new(rest.len(), |i: int| rest[i] + 1);
        assert forall|i: int| 0 <= i < rest.len() implies points.skip(1)[rest[i]] == points[rest[i]
            + 1] by {}
        match (points[0].word, points[0].vector) {
            (Some(word), Some(embedding)) => {
                let from = seq![0int] + shifted;
                assert forall|i: int| 0 <= i < from.len() implies 0 <= #[trigger] from[i]
                    < points.len() && points[from[i]].word == Some(neighbors_in(points)[i].word)
                    && points[from[i]].vector == Some(neighbors_in(points)[i].embedding) by {
                    if i > 0 {
                        assert(from[i] == rest[i - 1] + 1);
                        assert(neighbors_in(points)[i] == neighbors_in(points.skip(1))[i - 1]);
                    }
                }
                assert forall|i: int, j: int| 0 <= i < j < from.len() implies from[i] < from[j] by {
                    assert(from[j] == rest[j - 1] + 1);
                    if i > 0 {
                        assert(from[i] == rest[i - 1] + 1);
                    }
                }
                from
            },
            _ => {
                assert forall|i: int| 0 <= i < shifted.len() implies 0 <= #[trigger] shifted[i]
                    < points.len() && points[shifted[i]].word == Some(
                    neighbors_in(points)[i].word,
                ) && points[shifted[i]].vector == Some(neighbors_in(points)[i].embedding) by {
                    assert(shifted[i] == rest[i] + 1);
                }
                shifted
            },
        }
    }
}

/// The neighbours in an answer: the points that have both a word and a
/// vector, each with its own word and vector, in the order of the answer.
pub fn get_neighbors_from_response<T>(points: Vec<Point<T>>) -> (entries: Vec<Entry<T>>)
    ensures
        entries@ == neighbors_in(points@),
{
    let mut left = points;
    let mut entries: Vec<Entry<T>> = Vec::new();
    while left.len() > 0
        invariant
            neighbors_in(points@) == entries@ + neighbors_in(left@),
        decreases left@.len(),
    {
        let ghost before = left@;
        let ghost found = entries@;
        let point = left.remove(0);
        assert(before.skip(1) =~= left@);
        let Point { word, vector } = point;
        match (word, vector) {
            (Some(word), Some(embedding)) => {
                let entry = Entry { word, embedding };
                entries.push(entry);
                assert(entries@ + neighbors_in(left@) =~= found + (seq![entry] + neighbors_in(
                    left@,
                )));
            },
            _ => {},
        }
    }
    assert(entries@ + neighbors_in(left@) =~= entries@);
    entries
}

} // verus!
