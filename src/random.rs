//! Sources of randomness: a generator that can be seeded, and shuffling.
use vstd::prelude::*;

use rand::rngs::StdRng;
use rand::seq::SliceRandom;
use rand::SeedableRng;

verus! {

/// rand's standard generator, carried through as an opaque value.
#[verifier::external_type_specification]
#[verifier::external_body]
pub struct ExStdRng(StdRng);

/// Relies on rand_core's `SeedableRng::seed_from_u64`, which expands the seed
/// into a `StdRng` state and never fails.
#[verifier::external_body]
fn rng_from_seed(seed: u64) -> StdRng {
    StdRng::seed_from_u64(seed)
}

/// Relies on rand_core's `SeedableRng::from_os_rng`, which seeds a `StdRng`
/// from the operating system (it panics only when that source fails).
#[verifier::external_body]
fn rng_from_os() -> StdRng {
    StdRng::from_os_rng()
}

/// Relies on rand's `SliceRandom::shuffle` with the thread-local generator
/// `rand::rng()`: a Fisher-Yates pass of swaps, so the elements are only
/// reordered.
#[verifier::external_body]
fn shuffle_in_place(v: &mut Vec<usize>)
    ensures
        final(v)@.len() == old(v)@.len(),
        final(v)@.to_multiset() == old(v)@.to_multiset(),
{
    v.shuffle(&mut rand::rng());
}

/// A random number generator owned by one training run.
pub struct Random {
    pub rng: StdRng,
}

impl Random {
    /// With `Some(seed)`, a generator that gives the same draws for the same
    /// seed; with `None`, one seeded from the operating system.
    pub fn new(seed: Option<u64>) -> Random {
        let rng = match seed {
            Some(s) => rng_from_seed(s),
            None => rng_from_os(),
        };
        Random { rng }
    }
}

/// `order` lists each of `0..n` exactly once.
pub open spec fn is_index_permutation(order: Seq<usize>, n: nat) -> bool {
    &&& order.len() == n
    &&& order.no_duplicates()
    &&& forall|k: int| 0 <= k < n ==> #[trigger] order[k] < n
    &&& forall|i: usize| i < n ==> #[trigger] order.contains(i)
}

/// The indices `0..n` in a random order.
pub fn shuffle_indices(n: usize) -> (r: Vec<usize>)
    ensures
        is_index_permutation(r@, n as nat),
{
    let mut idx: Vec<usize> = Vec::with_capacity(n);
    let mut i: usize = 0;
    while i < n
        invariant
            i <= n,
            idx@ == Seq::new(i as nat, |k: int| k as usize),
        decreases n - i,
    {
        idx.push(i);
        i += 1;
    }
    let ghost before = idx@;
    assert(before.no_duplicates());
    shuffle_in_place(&mut idx);
    proof {
        broadcast use vstd::seq_lib::group_to_multiset_ensures;

        before.lemma_multiset_has_no_duplicates();
        idx@.lemma_multiset_has_no_duplicates_conv();
        assert forall|k: int| 0 <= k < n implies #[trigger] idx@[k] < n by {
            assert(idx@.contains(idx@[k]));
            assert(idx@.to_multiset().count(idx@[k]) > 0);
            assert(before.contains(idx@[k]));
        }
        assert forall|j: usize| j < n implies #[trigger] idx@.contains(j) by {
            assert(before[j as int] == j);
            assert(before.contains(j));
            assert(before.to_multiset().count(j) > 0);
        }
    }
    idx
}

} // verus!
