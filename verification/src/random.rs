//! The random source and the two draws that a sequence is built from.

use crate::errors::Error;
use proptest::test_runner::Config as ProptestConfig;
use proptest::test_runner::{RngAlgorithm, TestRng, TestRunner};
use rand::distributions::{Distribution, Uniform, WeightedError, WeightedIndex};
use vstd::prelude::*;

verus! {

/// The runner owns the random source that every draw of a trial goes
/// through. Nothing of its inside is known here.
#[verifier::external_type_specification]
#[verifier::external_body]
pub struct ExTestRunner(TestRunner);

/// Why a weight table was refused by the sampler.
#[verifier::external_type_specification]
#[verifier::external_body]
pub struct ExWeightedError(WeightedError);

/// Sum of all weights.
pub open spec fn total_weight(weights: Seq<usize>) -> nat
    decreases weights.len(),
{
    if weights.len() == 0 {
        0
    } else {
        total_weight(weights.drop_last()) + weights.last() as nat
    }
}

/// Wraps `rand::random`: thirty-two bytes from the thread's own random
/// source, to start a runner from. No two calls need give the same.
#[verifier::external_body]
pub(crate) fn fresh_seed() -> (seed: [u8; 32]) {
    rand::random()
}

/// Wraps `TestRunner::new_with_rng` on `TestRng::from_seed`: a runner whose
/// random source is the ChaCha generator started from `seed`.
#[verifier::external_body]
pub(crate) fn new_seeded_runner(cases: u32, max_shrink_iters: u32, seed: &[u8; 32]) -> (runner:
    TestRunner) {
    let rng_algorithm = RngAlgorithm::ChaCha;
    let config =
        ProptestConfig { cases, max_shrink_iters, rng_algorithm, ..ProptestConfig::default() };
    TestRunner::new_with_rng(config, TestRng::from_seed(rng_algorithm, seed))
}

/// Wraps `Uniform::new_inclusive(low, high)` and one `sample` from it, on
/// the runner's random source. The sampler refuses `low > high`; what it
/// returns lies between the two bounds, both included.
#[verifier::external_body]
pub(crate) fn sample_size(runner: &mut TestRunner, low: usize, high: usize) -> (size: usize)
    requires
        low <= high,
    ensures
        low <= size <= high,
{
    Uniform::new_inclusive(low, high).sample(runner.rng())
}

/// Wraps `WeightedIndex::new(weights)` and one `sample` from it, on the
/// runner's random source. The sampler adds the weights up in a `usize`, so
/// the sum has to fit. It refuses an empty table and one whose weights are
/// all zero, and accepts any other; the position it draws holds a weight
/// that is not zero.
#[verifier::external_body]
pub(crate) fn sample_weighted(runner: &mut TestRunner, weights: &Vec<usize>) -> (choice: Result<
    usize,
    WeightedError,
>)
    requires
        total_weight(weights@) <= usize::MAX,
    ensures
        choice is Ok <==> total_weight(weights@) > 0,
        choice matches Ok(i) ==> i < weights@.len() && weights@[i as int] > 0,
{
    match WeightedIndex::new(weights) {
        Ok(distribution) => Ok(distribution.sample(runner.rng())),
        Err(refusal) => Err(refusal),
    }
}

/// Whether `runner` is a runner that was made to start from `seed`.
pub closed spec fn seeded_runner(
    cases: u32,
    max_shrink_iters: u32,
    seed: [u8; 32],
    runner: TestRunner,
) -> bool {
    call_ensures(new_seeded_runner, (cases, max_shrink_iters, &seed), runner)
}

/// A runner for `cases` trials that starts from `seed`.
pub(crate) fn make_runner(cases: u32, max_shrink_iters: u32, seed: &[u8; 32]) -> (runner:
    TestRunner)
    ensures
        seeded_runner(cases, max_shrink_iters, *seed, runner),
{
    new_seeded_runner(cases, max_shrink_iters, seed)
}

/// Whether `size` is what the random source of a runner that stood at
/// `runner` gave when a size between `low` and `high` was drawn from it.
pub closed spec fn sized_by(runner: TestRunner, low: usize, high: usize, size: usize) -> bool {
    exists|drawing: &mut TestRunner|
        mut_ref_current(drawing) == runner && #[trigger] call_ensures(
            sample_size,
            (drawing, low, high),
            size,
        )
}

/// Draws a size between `low` and `high`, both included.
pub(crate) fn draw_size(runner: &mut TestRunner, low: usize, high: usize) -> (size: usize)
    requires
        low <= high,
    ensures
        low <= size <= high,
        sized_by(*old(runner), low, high, size),
{
    sample_size(runner, low, high)
}

/// The sum of `weights`, unless it is too large for a `usize`.
pub fn checked_total_weight(weights: &Vec<usize>) -> (total: Option<usize>)
    ensures
        total matches Some(t) ==> t == total_weight(weights@),
        total is None ==> total_weight(weights@) > usize::MAX,
{
    let mut total: usize = 0;
    let mut i: usize = 0;
    while i < weights.len()
        invariant
            i <= weights@.len(),
            total == total_weight(weights@.take(i as int)),
        decreases weights@.len() - i,
    {
        proof {
            assert(weights@.take(i + 1).drop_last() =~= weights@.take(i as int));
            lemma_total_weight_of_prefix(weights@, i + 1);
        }
        match total.checked_add(weights[i]) {
            Some(sum) => {
                total = sum;
            },
            None => {
                return None;
            },
        }
        i += 1;
    }
    proof {
        assert(weights@.take(i as int) =~= weights@);
    }
    Some(total)
}

/// Draws one position of a weight table, each with a chance in proportion
/// to its weight. A table without entries, or whose weights are all zero
/// or add up to more than `usize::MAX`, has nothing to draw from.
pub fn choose_weighted(runner: &mut TestRunner, weights: &Vec<usize>) -> (choice: Result<
    usize,
    Error,
>)
    ensures
        choice is Ok <==> 0 < total_weight(weights@) <= usize::MAX,
        choice matches Ok(i) ==> i < weights@.len() && weights@[i as int] > 0,
        choice matches Err(e) ==> e is Generation,
{
    match checked_total_weight(weights) {
        None => Err(
            Error::new_generation_error(String::from_str("Total weight is too large in distribution")),
        ),
        Some(_) => match sample_weighted(runner, weights) {
            Ok(position) => Ok(position),
            Err(refusal) => Err(Error::new_generation_error(refusal.to_string())),
        },
    }
}

/// The weights of a prefix add up to no more than those of the whole table.
pub proof fn lemma_total_weight_of_prefix(weights: Seq<usize>, n: int)
    requires
        0 <= n <= weights.len(),
    ensures
        total_weight(weights.take(n)) <= total_weight(weights),
    decreases weights.len() - n,
{
    if n < weights.len() {
        assert(weights.take(n + 1).drop_last() =~= weights.take(n));
        lemma_total_weight_of_prefix(weights, n + 1);
    } else {
        assert(weights.take(n) =~= weights);
    }
}

} // verus!
