//! Randomness for the simulation, behind trusted wrappers.
//!
//! A run holds one seeded generator; every node receives a child generator
//! forked from it at construction. Nothing is promised of random results
//! beyond what holds of every outcome: lengths, ranges and distinctness of
//! samples drawn without replacement.

use vstd::prelude::*;

use rand::Rng;
use rand::RngCore;
use rand::SeedableRng;
use rand::seq::IteratorRandom;
use rand::seq::SliceRandom;

verus! {

#[verifier::external_type_specification]
#[verifier::external_body]
pub struct ExSmallRng(rand::rngs::SmallRng);

/// The simulation's random number generator: a small, seedable generator.
pub struct SimRng {
    rng: rand::rngs::SmallRng,
}

/// Relies on rand's `SmallRng::seed_from_u64`: builds a generator from a
/// 64-bit seed; it never fails.
#[verifier::external_body]
fn small_rng_from_seed(seed: u64) -> rand::rngs::SmallRng {
    rand::rngs::SmallRng::seed_from_u64(seed)
}

/// Relies on rand's `RngCore::next_u64`: draws the generator's next 64-bit
/// value.
#[verifier::external_body]
fn small_rng_next_u64(rng: &mut SimRng) -> u64 {
    rng.rng.next_u64()
}

/// Relies on `rand::random`: one uniformly random boolean from the global
/// generator.
#[verifier::external_body]
pub(crate) fn random_bool() -> bool {
    rand::random::<bool>()
}

/// Relies on rand's `Rng::gen_range`: a uniform draw below the bound.
#[verifier::external_body]
pub(crate) fn gen_index_below(rng: &mut SimRng, bound: usize) -> (r: usize)
    requires
        bound > 0,
    ensures
        r < bound,
{
    rng.rng.gen_range(0..bound)
}

/// Relies on rand's `IteratorRandom::choose_multiple` over `0..n`: a sample
/// without replacement, so the chosen positions are distinct values below
/// `n`, as many as requested or as exist.
#[verifier::external_body]
pub(crate) fn choose_indices(rng: &mut SimRng, n: usize, amount: usize) -> (r: Vec<usize>)
    ensures
        r@.len() == if amount <= n { amount as int } else { n as int },
        forall|k: int| 0 <= k < r@.len() ==> r@[k] < n,
        forall|i: int, j: int|
            0 <= i < j < r@.len() ==> #[trigger] r@[i] != #[trigger] r@[j],
{
    (0..n).choose_multiple(&mut rng.rng, amount)
}

/// Relies on rand's `SliceRandom::shuffle`: an in-place permutation, so the
/// slice keeps exactly its elements.
#[verifier::external_body]
pub(crate) fn shuffle_ids(rng: &mut SimRng, v: &mut Vec<usize>)
    ensures
        final(v)@.len() == old(v)@.len(),
        final(v)@.to_multiset() == old(v)@.to_multiset(),
        forall|x: usize| #[trigger] final(v)@.contains(x) ==> old(v)@.contains(x),
{
    v.as_mut_slice().shuffle(&mut rng.rng);
}

/// Relies on rand's `SliceRandom::shuffle`: an in-place permutation, so the
/// slice keeps exactly its elements.
#[verifier::external_body]
pub(crate) fn shuffle_opinions(
    rng: &mut SimRng,
    v: &mut Vec<crate::vote::Opinion<crate::vote::NoTx>>,
)
    ensures
        final(v)@.len() == old(v)@.len(),
        final(v)@.to_multiset() == old(v)@.to_multiset(),
{
    v.as_mut_slice().shuffle(&mut rng.rng);
}

/// Relies on `rand::random`: one uniformly random 64-bit seed from the
/// global generator.
#[verifier::external_body]
pub(crate) fn random_u64() -> u64 {
    rand::random::<u64>()
}

/// Relies on rand's `SliceRandom::choose_weighted`: picks one of the given
/// `(id, weight)` pairs with probability proportional to its weight. With
/// unsigned weights it fails only on an empty list or an all-zero total, and
/// it panics if the total overflows; the preconditions rule those out.
#[verifier::external_body]
pub(crate) fn choose_weighted_id(rng: &mut SimRng, items: &Vec<(usize, u32)>) -> (r: usize)
    requires
        items@.len() > 0,
        sum_weights(items@) > 0,
        sum_weights(items@) <= u32::MAX,
    ensures
        is_listed_id(items@, r),
{
    items
        .as_slice()
        .choose_weighted(&mut rng.rng, |e| e.1)
        .expect("a positive total weight always yields a choice")
        .0
}

/// Whether `id` is one of the ids in a list of `(id, weight)` pairs.
pub open spec fn is_listed_id(items: Seq<(usize, u32)>, id: usize) -> bool {
    exists|j: int| 0 <= j < items.len() && (#[trigger] items[j]).0 == id
}

/// The total weight carried by a list of `(id, weight)` pairs.
pub open spec fn sum_weights(items: Seq<(usize, u32)>) -> int
    decreases items.len(),
{
    if items.len() == 0 {
        0
    } else {
        sum_weights(items.drop_last()) + items.last().1
    }
}

/// Relies on rand's `SliceRandom::choose_multiple_weighted`: a weighted
/// sample without replacement over the weight list's positions, so the
/// result holds distinct positions, as many as requested or as exist. With
/// unsigned weights the underlying sampler never reports an error (every
/// weight converts to a non-negative finite float), so the error arm is
/// unreachable.
#[verifier::external_body]
pub(crate) fn sample_weighted_indices(
    rng: &mut SimRng,
    weights: &Vec<u32>,
    amount: usize,
) -> (r: Vec<usize>)
    ensures
        r@.len() == if amount <= weights@.len() { amount as int } else {
            weights@.len() as int
        },
        forall|k: int| 0 <= k < r@.len() ==> r@[k] < weights@.len(),
        forall|i: int, j: int|
            0 <= i < j < r@.len() ==> #[trigger] r@[i] != #[trigger] r@[j],
{
    let pairs: Vec<(usize, u32)> = weights.iter().copied().enumerate().collect();
    match pairs.as_slice().choose_multiple_weighted(&mut rng.rng, amount, |e| e.1) {
        Ok(iter) => iter.map(|e| e.0).collect(),
        Err(_) => Vec::new(),
    }
}

impl SimRng {
    /// A generator seeded from a 64-bit value.
    pub fn seed_from_u64(seed: u64) -> SimRng {
        SimRng { rng: small_rng_from_seed(seed) }
    }

    /// A child generator seeded from this one, so that the two no longer
    /// share state.
    pub fn fork(&mut self) -> SimRng {
        let seed = small_rng_next_u64(self);
        SimRng { rng: small_rng_from_seed(seed) }
    }
}

} // verus!
