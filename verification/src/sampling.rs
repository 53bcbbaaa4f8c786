//! Random draws, made by the `rand` crate.

use rand::distributions::{Distribution, WeightedError, WeightedIndex};
use rand::{thread_rng, Rng};
use vstd::prelude::*;

verus! {

/// Why a weighted draw could not be made.
#[derive(Clone, Copy, Debug, PartialEq, Eq, Structural)]
pub enum WeightedFault {
    /// No weights were given.
    NoItem,
    /// A weight is not a valid weight.
    InvalidWeight,
    /// Every weight is zero.
    AllWeightsZero,
    /// More weights than the sampler supports.
    TooMany,
}

/// The sum of a list of weights.
pub open spec fn total(weights: Seq<u64>) -> int
    decreases weights.len(),
{
    if weights.len() == 0 {
        0
    } else {
        total(weights.drop_last()) + weights.last()
    }
}

/// A sum of weights is zero exactly when every weight is, and is bounded by
/// the number of weights times any bound on each of them.
pub proof fn lemma_total(weights: Seq<u64>, bound: int)
    requires
        forall|j: int| 0 <= j < weights.len() ==> weights[j] <= bound,
    ensures
        0 <= total(weights) <= weights.len() * bound,
        total(weights) == 0 <==> forall|j: int| 0 <= j < weights.len() ==> weights[j] == 0,
    decreases weights.len(),
{
    if weights.len() > 0 {
        let front = weights.drop_last();
        lemma_total(front, bound);
        assert(front.len() * bound + bound == weights.len() * bound) by (nonlinear_arith)
            requires
                front.len() + 1 == weights.len(),
        ;
        if forall|j: int| 0 <= j < weights.len() ==> weights[j] == 0 {
            assert forall|j: int| 0 <= j < front.len() implies front[j] == 0 by {
                assert(front[j] == weights[j]);
            }
        }
        if total(weights) == 0 {
            assert forall|j: int| 0 <= j < weights.len() implies weights[j] == 0 by {
                if j < front.len() {
                    assert(front[j] == weights[j]);
                }
            }
        }
    }
}

/// Draws an index with probability proportional to its weight:
/// `rand::distributions::WeightedIndex::new` on the weights, then
/// `Distribution::sample` with `rand::thread_rng`.
///
/// Trusted: with no weights the sampler reports `NoItem`, with a zero sum
/// `AllWeightsZero`; otherwise it yields an index of the list whose own
/// weight is positive. The sum is required to fit in `u64`, as the sampler
/// adds the weights up in that type.
#[verifier::external_body]
pub(crate) fn sample_weighted(weights: &Vec<u64>) -> (drawn: Result<usize, WeightedFault>)
    requires
        total(weights@) <= u64::MAX,
    ensures
        match drawn {
            Ok(i) => weights@.len() > 0 && total(weights@) > 0 && i < weights@.len() && weights@[i as int] > 0,
            Err(fault) => if weights@.len() == 0 {
                fault == WeightedFault::NoItem
            } else {
                total(weights@) == 0 && fault == WeightedFault::AllWeightsZero
            },
        },
{
    match WeightedIndex::new(weights) {
        Ok(dist) => Ok(dist.sample(&mut thread_rng())),
        Err(WeightedError::NoItem) => Err(WeightedFault::NoItem),
        Err(WeightedError::InvalidWeight) => Err(WeightedFault::InvalidWeight),
        Err(WeightedError::AllWeightsZero) => Err(WeightedFault::AllWeightsZero),
        Err(WeightedError::TooMany) => Err(WeightedFault::TooMany),
    }
}

/// Draws an index below `n` uniformly: `rand::Rng::gen_range` on
/// `rand::thread_rng`, over the range from zero up to `n`.
///
/// Trusted: the draw lies in the range. An empty range is left out, as the
/// generator panics on it.
#[verifier::external_body]
pub(crate) fn random_index(n: usize) -> (i: usize)
    requires
        n > 0,
    ensures
        i < n,
{
    thread_rng().gen_range(0..n)
}

} // verus!
