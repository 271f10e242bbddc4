//! The random source of the track generator: rand's seeded standard
//! generator, reached through a few trusted calls.
use rand::rngs::StdRng;
use vstd::prelude::*;

verus! {

#[verifier::external_type_specification]
#[verifier::external_body]
pub struct ExStdRng(StdRng);

/// Sum of a sequence of weights.
pub open spec fn weight_total(w: Seq<u64>) -> int
    decreases w.len(),
{
    if w.len() == 0 {
        0
    } else {
        weight_total(w.drop_last()) + w.last()
    }
}

/// Relies on rand's `SeedableRng::seed_from_u64` for `StdRng`: a generator
/// whose whole stream is fixed by the seed.
#[verifier::external_body]
pub(crate) fn seeded(seed: u64) -> StdRng {
    <StdRng as rand::SeedableRng>::seed_from_u64(seed)
}

/// Relies on rand's `Rng::gen_range` over a half-open range: the value lies
/// in `[low, high)`; the range must not be empty, or the call panics.
#[verifier::external_body]
pub(crate) fn draw_below(rng: &mut StdRng, low: i64, high: i64) -> (r: i64)
    requires
        low < high,
    ensures
        low <= r < high,
{
    rand::Rng::gen_range(rng, low..high)
}

/// Relies on rand's `WeightedIndex::new` and its `sample`: building fails
/// exactly when there is no weight or every weight is zero; a sample is the
/// index of a positive weight. The running sum must fit in `u64`.
#[verifier::external_body]
pub(crate) fn draw_weighted(rng: &mut StdRng, weights: &Vec<u64>) -> (r: Option<usize>)
    requires
        weight_total(weights@) <= u64::MAX,
    ensures
        r is None <==> (forall|i: int| 0 <= i < weights@.len() ==> weights@[i] == 0),
        r matches Some(i) ==> i < weights@.len() && weights@[i as int] > 0,
{
    match rand::distributions::WeightedIndex::new(weights.iter()) {
        Ok(dist) => Some(rand::distributions::Distribution::sample(&dist, rng)),
        Err(_) => None,
    }
}

} // verus!
