//! The filter that keeps explored words out of a neighbour lookup.

use crate::step::spell;
use qdrant_client::qdrant::{Condition, Filter};
use vstd::prelude::*;

verus! {

/// `qdrant_client::qdrant::Condition`, one condition of a filter; nothing is
/// known of what it holds.
#[verifier::external_type_specification]
#[verifier::external_body]
pub struct ExCondition(Condition);

/// `qdrant_client::qdrant::Filter`, what a lookup lets pass; nothing is known
/// of what it holds.
#[verifier::external_type_specification]
#[verifier::external_body]
pub struct ExFilter(Filter);

/// The condition that `Condition::matches` builds from a field's name and a
/// text to match it against.
pub uninterp spec fn field_matches(field: Seq<char>, value: Seq<char>) -> Condition;

/// The filter that `Filter::must_not` builds from a list of conditions.
pub uninterp spec fn none_of(conditions: Seq<Condition>) -> Filter;

/// `Condition::matches` with a text as the value: the condition that the
/// field's value matches the text. The condition depends on the two texts
/// alone.
#[verifier::external_body]
fn condition_matches(field: &str, value: &String) -> (condition: Condition)
    ensures
        condition == field_matches(field@, value@),
{
    Condition::matches(field, value.clone())
}

/// `Filter::must_not`: the filter that passes a point that meets none of the
/// conditions. The filter depends on the conditions alone, order included.
#[verifier::external_body]
fn must_not(conditions: Vec<Condition>) -> (filter: Filter)
    ensures
        filter == none_of(conditions@),
{
    Filter::must_not(conditions)
}

/// The conditions that rule out each of the words, in their order: the field
/// `word` of a point matches it.
pub open spec fn word_conditions(words: Seq<Seq<char>>) -> Seq<Condition> {
    Seq::new(words.len(), |i: int| field_matches("word"@, words[i]))
}

/// The filter that passes the points whose word is none of `words`.
pub fn tabu_filter(words: &Vec<String>) -> (filter: Filter)
    ensures
        filter == none_of(word_conditions(spell(words@))),
{
    let mut conditions: Vec<Condition> = Vec::new();
    let mut i: usize = 0;
    while i < words.len()
        invariant
            i <= words@.len(),
            conditions@.len() == i,
            forall|j: int|
                0 <= j < i ==> conditions@[j] == field_matches("word"@, (#[trigger] words@[j])@),
        decreases words@.len() - i,
    {
        conditions.push(condition_matches("word", &words[i]));
        i = i + 1;
    }
    assert(conditions@ =~= word_conditions(spell(words@)));
    must_not(conditions)
}

} // verus!
