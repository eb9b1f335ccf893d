//! MinHash sketches: a set of 32-bit features reduced to one minimum per
//! permutation, so that matching positions estimate Jaccard similarity.
use vstd::prelude::*;

verus! {

/// The Mersenne prime 2^61 - 1 that bounds each permuted feature.
pub const MERSENNE_PRIME: u64 = 2_305_843_009_213_693_951;

/// A value taken modulo 2^64, as 64-bit wrapping arithmetic leaves it.
pub open spec fn wrap64(x: int) -> int {
    x % 0x1_0000_0000_0000_0000
}

/// Feature `f` under the permutation `(a, b)`: `a * f + b` with 64-bit
/// wrapping, reduced modulo the Mersenne prime, then cut to its low 32 bits.
pub open spec fn permuted(a: u64, b: u64, f: u32) -> u32 {
    ((wrap64(wrap64(a * f) + b) % (MERSENNE_PRIME as int)) % 0x1_0000_0000) as u32
}

/// The least value of `permuted(a, b, f)` over the features `fs` (meaningful
/// only when `fs` is non-empty).
pub open spec fn min_permuted(a: u64, b: u64, fs: Seq<u32>) -> u32
    recommends
        fs.len() > 0,
    decreases fs.len(),
{
    if fs.len() <= 1 {
        permuted(a, b, fs[0])
    } else {
        let rest = min_permuted(a, b, fs.drop_last());
        let h = permuted(a, b, fs.last());
        if h < rest {
            h
        } else {
            rest
        }
    }
}

/// The sketch of `fs`: one minimum per permutation, in permutation order.
pub open spec fn sketch(perms: Seq<(u64, u64)>, fs: Seq<u32>) -> Seq<u32> {
    Seq::new(perms.len(), |i: int| min_permuted(perms[i].0, perms[i].1, fs))
}

/// The minimum is reached by some feature and bounds all of them from below.
pub proof fn lemma_min_permuted_bounds(a: u64, b: u64, fs: Seq<u32>)
    requires
        fs.len() > 0,
    ensures
        exists|j: int| 0 <= j < fs.len() && min_permuted(a, b, fs) == permuted(a, b, fs[j]),
        forall|j: int| 0 <= j < fs.len() ==> min_permuted(a, b, fs) <= permuted(a, b, #[trigger] fs[j]),
    decreases fs.len(),
{
    if fs.len() > 1 {
        let rest = fs.drop_last();
        lemma_min_permuted_bounds(a, b, rest);
        let j0 = choose|j: int| 0 <= j < rest.len() && min_permuted(a, b, rest) == permuted(a, b, rest[j]);
        if permuted(a, b, fs.last()) < min_permuted(a, b, rest) {
            assert(min_permuted(a, b, fs) == permuted(a, b, fs[fs.len() - 1]));
        } else {
            assert(min_permuted(a, b, fs) == permuted(a, b, fs[j0]));
        }
        assert forall|j: int| 0 <= j < fs.len() implies min_permuted(a, b, fs) <= permuted(a, b, #[trigger] fs[j]) by {
            if j < fs.len() - 1 {
                assert(fs[j] == rest[j]);
            }
        }
    } else {
        assert(min_permuted(a, b, fs) == permuted(a, b, fs[0]));
    }
}

/// The minimum is determined by the features alone: any value that some
/// feature reaches and that no feature goes below is `min_permuted`.
pub proof fn lemma_min_permuted_unique(a: u64, b: u64, fs: Seq<u32>, v: u32)
    requires
        fs.len() > 0,
        exists|j: int| 0 <= j < fs.len() && v == permuted(a, b, fs[j]),
        forall|j: int| 0 <= j < fs.len() ==> v <= permuted(a, b, #[trigger] fs[j]),
    ensures
        v == min_permuted(a, b, fs),
{
    lemma_min_permuted_bounds(a, b, fs);
}

/// The sketch depends on the set of features only: neither their order nor
/// their repetition changes it.
pub proof fn lemma_sketch_depends_on_set(perms: Seq<(u64, u64)>, f1: Seq<u32>, f2: Seq<u32>)
    requires
        f1.len() > 0,
        f1.to_set() == f2.to_set(),
    ensures
        sketch(perms, f1) == sketch(perms, f2),
{
    assert(f1.to_set().contains(f1[0]));
    assert(f2.contains(f1[0]));
    assert forall|i: int| 0 <= i < perms.len() implies min_permuted(perms[i].0, perms[i].1, f1)
        == min_permuted(perms[i].0, perms[i].1, f2) by {
        let (a, b) = perms[i];
        lemma_min_permuted_bounds(a, b, f1);
        lemma_min_permuted_bounds(a, b, f2);
        let m1 = min_permuted(a, b, f1);
        let m2 = min_permuted(a, b, f2);
        let j1 = choose|j: int| 0 <= j < f1.len() && m1 == permuted(a, b, f1[j]);
        let j2 = choose|j: int| 0 <= j < f2.len() && m2 == permuted(a, b, f2[j]);
        assert(f1.to_set().contains(f1[j1]));
        let k2 = choose|k: int| 0 <= k < f2.len() && f2[k] == f1[j1];
        assert(f2.to_set().contains(f2[j2]));
        let k1 = choose|k: int| 0 <= k < f1.len() && f1[k] == f2[j2];
        assert(m2 <= permuted(a, b, f2[k2]));
        assert(m1 <= permuted(a, b, f1[k1]));
    }
    assert(sketch(perms, f1) =~= sketch(perms, f2));
}

/// Reordering the features leaves the sketch unchanged.
pub proof fn lemma_sketch_order_invariant(perms: Seq<(u64, u64)>, f1: Seq<u32>, f2: Seq<u32>)
    requires
        f1.len() > 0,
        f1.to_multiset() == f2.to_multiset(),
    ensures
        sketch(perms, f1) == sketch(perms, f2),
{
    broadcast use vstd::seq_lib::group_to_multiset_ensures;

    assert(f1.to_set() =~= f2.to_set()) by {
        assert forall|x: u32| f1.to_set().contains(x) <==> f2.to_set().contains(x) by {
            assert(f1.contains(x) <==> f1.to_multiset().count(x) > 0);
            assert(f2.contains(x) <==> f2.to_multiset().count(x) > 0);
        }
    }
    lemma_sketch_depends_on_set(perms, f1, f2);
}

/// One feature under one permutation, as the executable arithmetic does it.
fn permute(a: u64, b: u64, f: u32) -> (r: u32)
    ensures
        r == permuted(a, b, f),
{
    let x: u64 = a.wrapping_mul(f as u64);
    let y: u64 = x.wrapping_add(b);
    let z: u64 = y % MERSENNE_PRIME;
    assert(x as int == wrap64(a * f));
    assert(y as int == wrap64(x + b));
    assert((z as u32) as int == z % 0x1_0000_0000) by (bit_vector);
    z as u32
}

/// The MinHash sketch of `features` under the permutation table
/// `permutations`: for each pair `(a, b)` the least `permuted(a, b, f)` over
/// all features. An empty feature sequence is a contract violation.
pub fn minimum_hash(features: Vec<u32>, permutations: &[(u64, u64)]) -> (r: Vec<u32>)
    requires
        features.len() > 0,
    ensures
        r@ == sketch(permutations@, features@),
{
    let mut min_features: Vec<u32> = Vec::new();
    let mut p: usize = 0;
    while p < permutations.len()
        invariant
            features.len() > 0,
            p <= permutations@.len(),
            min_features@ =~= sketch(permutations@, features@).subrange(0, p as int),
        decreases permutations@.len() - p,
    {
        let (a, b) = permutations[p];
        let mut min: u32 = permute(a, b, features[0]);
        let mut j: usize = 1;
        assert(features@.subrange(0, 1).len() == 1);
        while j < features.len()
            invariant
                1 <= j <= features@.len(),
                min == min_permuted(a, b, features@.subrange(0, j as int)),
            decreases features@.len() - j,
        {
            let h = permute(a, b, features[j]);
            assert(features@.subrange(0, j + 1).drop_last() =~= features@.subrange(0, j as int));
            if h < min {
                min = h;
            }
            j = j + 1;
        }
        assert(features@.subrange(0, j as int) =~= features@);
        min_features.push(min);
        p = p + 1;
    }
    min_features
}

} // verus!
