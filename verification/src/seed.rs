//! The seed of an attempt: the mean of points sampled from the index.
//!
//! The mean itself is arithmetic on coordinates and is taken by the caller.
//! Whether there is a mean to take is decided here.

use crate::errors::KontekstoError;
use vstd::prelude::*;

verus! {

/// Every vector of the sample has the length `dim`.
pub open spec fn uniform<T>(sample: Seq<Vec<T>>, dim: nat) -> bool {
    forall|i: int| 0 <= i < sample.len() ==> (#[trigger] sample[i])@.len() == dim
}

/// The length that the mean of a sample has: that of each of its vectors.
/// An empty sample has no mean, and neither has one whose vectors differ in
/// length.
pub fn seed_dimension<T>(sample: &Vec<Vec<T>>) -> (result: Result<usize, KontekstoError>)
    ensures
        sample@.len() == 0 ==> result == Err::<usize, KontekstoError>(
            KontekstoError::IndexUnavailable,
        ),
        sample@.len() > 0 && uniform(sample@, sample@[0]@.len()) ==> result == Ok::<
            usize,
            KontekstoError,
        >(sample@[0]@.len() as usize),
        sample@.len() > 0 && !uniform(sample@, sample@[0]@.len()) ==> result == Err::<
            usize,
            KontekstoError,
        >(KontekstoError::DimensionMismatch),
{
    if sample.len() == 0 {
        return Err(KontekstoError::IndexUnavailable);
    }
    let dim: usize = sample[0].len();
    let mut i: usize = 1;
    while i < sample.len()
        invariant
            1 <= i <= sample@.len(),
            dim == sample@[0]@.len(),
            forall|j: int| 0 <= j < i ==> (#[trigger] sample@[j])@.len() == dim,
        decreases sample@.len() - i,
    {
        if sample[i].len() != dim {
            return Err(KontekstoError::DimensionMismatch);
        }
        i = i + 1;
    }
    Ok(dim)
}

} // verus!
