use crate::digest::{key_to_seed, seed_of};
use rand::rngs::StdRng;
use rand::seq::SliceRandom;
use rand::SeedableRng;
use vstd::prelude::*;

verus! {

/// What rand's seeded shuffle makes of `items` for a given seed.
pub uninterp spec fn shuffled(seed: u64, items: Seq<usize>) -> Seq<usize>;

/// The identity sequence `0, 1, ..., n - 1`.
pub open spec fn identity(n: nat) -> Seq<usize> {
    Seq::new(n, |i: int| i as usize)
}

/// `p` lists each index of `0..n` exactly once.
pub open spec fn is_permutation(p: Seq<usize>, n: nat) -> bool {
    &&& p.len() == n
    &&& forall|i: int| 0 <= i < n ==> (#[trigger] p[i] as int) < n
    &&& forall|i: int, j: int| 0 <= i < j < n ==> p[i] != p[j]
}

/// The order in which the samples of a carrier of `n` samples are visited
/// under a passphrase.
pub open spec fn permutation_of(key: Seq<char>, n: nat) -> Seq<usize> {
    shuffled(seed_of(key), identity(n))
}

/// Relies on rand's `StdRng::seed_from_u64` and `SliceRandom::shuffle`: the
/// generator is ChaCha12 keyed by the seed, so the order depends on the seed
/// and the items alone; the shuffle only swaps items, so it keeps them all.
#[verifier::external_body]
fn seeded_shuffle(items: &mut Vec<usize>, seed: u64)
    ensures
        final(items)@ == shuffled(seed, old(items)@),
        final(items)@.to_multiset() == old(items)@.to_multiset(),
{
    let mut rng = StdRng::seed_from_u64(seed);
    items.shuffle(&mut rng);
}

proof fn lemma_shuffle_is_permutation(p: Seq<usize>, n: nat)
    requires
        n <= usize::MAX,
        p.to_multiset() == identity(n).to_multiset(),
    ensures
        is_permutation(p, n),
{
    let id = identity(n);
    assert(id.no_duplicates()) by {
        assert forall|i: int, j: int| 0 <= i < id.len() && 0 <= j < id.len() && i != j implies id[i]
            != id[j] by {
            assert(id[i] == i as usize && id[j] == j as usize);
        }
    }
    id.lemma_multiset_has_no_duplicates();
    p.to_multiset_ensures();
    id.to_multiset_ensures();
    assert(p.len() == n) by {
        vstd::seq_lib::to_multiset_len(p);
        vstd::seq_lib::to_multiset_len(id);
    }
    assert forall|i: int| 0 <= i < n implies (#[trigger] p[i] as int) < n by {
        assert(p.contains(p[i]));
        assert(p.to_multiset().count(p[i]) > 0);
        assert(id.to_multiset().count(p[i]) > 0);
        assert(id.contains(p[i]));
        let j = choose|j: int| 0 <= j < id.len() && id[j] == p[i];
        assert(id[j] == j as usize);
    }
    assert(p.no_duplicates()) by {
        assert forall|x: usize| p.to_multiset().contains(x) implies p.to_multiset().count(x)
            == 1 by {
            assert(id.to_multiset().contains(x));
        }
        p.lemma_multiset_has_no_duplicates_conv();
    }
}

/// Lists the sample indices `0..length` in the order that the passphrase
/// selects: a Fisher-Yates shuffle of the identity driven by the passphrase's
/// seed.
pub fn shuffle_indices(key: &str, length: usize) -> (r: Vec<usize>)
    ensures
        r@ == permutation_of(key@, length as nat),
        is_permutation(r@, length as nat),
{
    let seed = key_to_seed(key);
    let mut indices: Vec<usize> = Vec::with_capacity(length);
    let mut i: usize = 0;
    while i < length
        invariant
            i <= length,
            indices@ == identity(i as nat),
        decreases length - i,
    {
        indices.push(i);
        i += 1;
        assert(indices@ =~= identity(i as nat));
    }
    seeded_shuffle(&mut indices, seed);
    proof {
        lemma_shuffle_is_permutation(indices@, length as nat);
    }
    indices
}

/// Two orders computed from one passphrase and one sample count are the same
/// order.
pub proof fn lemma_permutation_deterministic(key: Seq<char>, n: nat, first: Seq<usize>, second: Seq<usize>)
    requires
        first == permutation_of(key, n),
        second == permutation_of(key, n),
    ensures
        first == second,
{
}

} // verus!
