//! The random source of the sampling search.

use rand::rngs::StdRng;
use rand::seq::SliceRandom;
use vstd::prelude::*;

verus! {

/// rand's standard generator, carried through as an opaque value.
#[verifier::external_type_specification]
#[verifier::external_body]
pub struct ExStdRng(rand::rngs::StdRng);

/// Puts `nodes` into a random order.
///
/// Trusted: the body calls rand's `SliceRandom::shuffle`, which only swaps
/// entries of the slice. The contract claims what holds of every outcome:
/// the entries are the same as before, each as often as before. Which order
/// comes out depends on the generator and is not stated.
#[verifier::external_body]
pub(crate) fn shuffle_indices(nodes: &mut Vec<usize>, rng: &mut StdRng)
    ensures
        final(nodes)@.to_multiset() == old(nodes)@.to_multiset(),
{
    nodes.shuffle(rng);
}

} // verus!
