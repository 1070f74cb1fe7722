//! The random draws of the game, made by the `rand` crate.

use vstd::prelude::*;
use rand::distr::Distribution;
use rand::distr::weighted::WeightedIndex;

verus! {

/// Holds a `rand::distr::weighted::WeightedIndex`, the distribution that
/// draws an index with a chance in proportion to the weight it was given.
#[verifier::external_body]
#[derive(Debug)]
pub struct WeightedDist {
    dist: WeightedIndex<u32>,
}

/// The weights that a distribution was made with, in their order.
pub uninterp spec fn dist_weights(dist: WeightedDist) -> Seq<u32>;

/// Sum of a sequence of weights.
pub open spec fn total_weight(weights: Seq<u32>) -> int
    decreases weights.len(),
{
    if weights.len() == 0 {
        0
    } else {
        total_weight(weights.drop_last()) + weights.last()
    }
}

/// Whether a distribution can be made of these weights: there is one at
/// least, one at least is not zero, and their sum fits the weight type.
pub open spec fn weights_valid(weights: Seq<u32>) -> bool {
    weights.len() > 0 && 0 < total_weight(weights) <= u32::MAX
}

/// Calls `WeightedIndex::new` on the weights. The source makes a
/// distribution unless there is no weight, the running sum overflows or the
/// sum is zero; the distribution keeps the weights it was given.
#[verifier::external_body]
pub(crate) fn weighted_index(weights: &Vec<u32>) -> (dist: Option<WeightedDist>)
    ensures
        dist is Some <==> weights_valid(weights@),
        dist is Some ==> dist_weights(dist.unwrap()) == weights@,
{
    match WeightedIndex::new(weights) {
        Ok(dist) => Some(WeightedDist { dist }),
        Err(_) => None,
    }
}

/// Calls `WeightedIndex::sample` with the thread's generator. The source
/// returns an index of one of the weights and, as its documentation
/// promises, never that of a weight of zero.
#[verifier::external_body]
pub(crate) fn sample_index(dist: &WeightedDist) -> (index: usize)
    ensures
        index < dist_weights(*dist).len(),
        dist_weights(*dist)[index as int] > 0,
{
    dist.dist.sample(&mut rand::rng())
}

/// Calls `rand::random_ratio`, which is true with a chance of `numerator` in
/// `denominator`: always when the two are equal, never when `numerator` is 0.
#[verifier::external_body]
pub(crate) fn random_ratio(numerator: u32, denominator: u32) -> (hit: bool)
    requires
        denominator > 0,
        numerator <= denominator,
    ensures
        numerator == denominator ==> hit,
        numerator == 0 ==> !hit,
{
    rand::random_ratio(numerator, denominator)
}

/// Calls `rand::random_range` on the half-open range from `low` to `high`.
#[verifier::external_body]
pub(crate) fn random_range(low: i64, high: i64) -> (value: i64)
    requires
        low < high,
    ensures
        low <= value < high,
{
    rand::random_range(low..high)
}

} // verus!
