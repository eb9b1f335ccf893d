//! SimHash: a set of 64-bit digests reduced to one digest by a bitwise
//! majority vote, packed into eight bytes.
use vstd::prelude::*;
use bit_vec::BitVec;

verus! {

/// Bit `p` of `d` (0 is the least significant).
pub open spec fn bit_set(d: u64, p: nat) -> bool {
    (d >> (p as u64)) & 1u64 == 1u64
}

/// Bit `k` of byte `x` (0 is the least significant).
pub open spec fn byte_bit(x: u8, k: nat) -> bool {
    (x >> (k as u8)) & 1u8 == 1u8
}

/// How many digests of `ds` have bit `p` set.
pub open spec fn count_set(ds: Seq<u64>, p: nat) -> nat
    decreases ds.len(),
{
    if ds.len() == 0 {
        0
    } else {
        count_set(ds.drop_last(), p) + if bit_set(ds.last(), p) {
            1nat
        } else {
            0nat
        }
    }
}

/// The least count that wins the vote among `n` digests: half, rounded up.
pub open spec fn majority_threshold(n: nat) -> nat {
    n / 2 + n % 2
}

/// Bit `p` of the SimHash of `ds`: set when at least half the digests set it.
pub open spec fn simhash_bit(ds: Seq<u64>, p: nat) -> bool {
    count_set(ds, p) >= majority_threshold(ds.len())
}

/// The eight bytes `r` hold the 64 bits of `ds`'s SimHash most significant
/// first: bit `p` is bit `p % 8` of byte `7 - p / 8`.
pub open spec fn holds_simhash(r: Seq<u8>, ds: Seq<u64>) -> bool {
    &&& r.len() == 8
    &&& forall|p: nat| p < 64 ==> byte_bit(#[trigger] r[7 - p / 8], p % 8) == simhash_bit(ds, p)
}

/// No digest count exceeds the number of digests.
pub proof fn lemma_count_set_bound(ds: Seq<u64>, p: nat)
    ensures
        count_set(ds, p) <= ds.len(),
    decreases ds.len(),
{
    if ds.len() > 0 {
        lemma_count_set_bound(ds.drop_last(), p);
    }
}

/// How many positions `i` have bit `p` set in `d1[i]` and clear in `d2[i]`
/// (over the common prefix when the lengths differ).
pub open spec fn count_cleared(d1: Seq<u64>, d2: Seq<u64>, p: nat) -> nat
    decreases d1.len(),
{
    if d1.len() == 0 || d2.len() == 0 {
        0
    } else {
        count_cleared(d1.drop_last(), d2.drop_last(), p) + if bit_set(d1.last(), p) && !bit_set(
            d2.last(),
            p,
        ) {
            1nat
        } else {
            0nat
        }
    }
}

/// How many digests have bit `p` flipped between `d1` and `d2`.
pub open spec fn count_flipped(d1: Seq<u64>, d2: Seq<u64>, p: nat) -> nat {
    count_cleared(d1, d2, p) + count_cleared(d2, d1, p)
}

/// Between two digest sequences of one length, the count of set bits moves by
/// the bits set minus the bits cleared.
pub proof fn lemma_count_set_after_flips(d1: Seq<u64>, d2: Seq<u64>, p: nat)
    requires
        d1.len() == d2.len(),
    ensures
        count_set(d2, p) + count_cleared(d1, d2, p) == count_set(d1, p) + count_cleared(d2, d1, p),
    decreases d1.len(),
{
    if d1.len() > 0 {
        lemma_count_set_after_flips(d1.drop_last(), d2.drop_last(), p);
    }
}

/// Where no digest has bit `p` cleared from `d1` to `d2`, nothing is counted.
proof fn lemma_none_cleared(d1: Seq<u64>, d2: Seq<u64>, p: nat)
    requires
        d1.len() == d2.len(),
        forall|i: int| 0 <= i < d1.len() && bit_set(#[trigger] d1[i], p) ==> bit_set(d2[i], p),
    ensures
        count_cleared(d1, d2, p) == 0,
    decreases d1.len(),
{
    if d1.len() > 0 {
        let (e1, e2) = (d1.drop_last(), d2.drop_last());
        assert forall|i: int| 0 <= i < e1.len() && bit_set(#[trigger] e1[i], p) implies bit_set(
            e2[i],
            p,
        ) by {
            assert(e1[i] == d1[i] && e2[i] == d2[i]);
        }
        lemma_none_cleared(e1, e2, p);
        assert(bit_set(d1[d1.len() - 1], p) ==> bit_set(d2[d2.len() - 1], p));
    }
}

/// Noise below the winning margin is absorbed: if at every position fewer
/// digests flip than the vote was won by, the SimHash stays the same.
pub proof fn lemma_flips_within_margin_keep_simhash(d1: Seq<u64>, d2: Seq<u64>)
    requires
        d1.len() == d2.len(),
        forall|p: nat|
            p < 64 ==> if simhash_bit(d1, p) {
                #[trigger] count_flipped(d1, d2, p) + majority_threshold(d1.len()) <= count_set(
                    d1,
                    p,
                )
            } else {
                count_set(d1, p) + count_flipped(d1, d2, p) < majority_threshold(d1.len())
            },
    ensures
        forall|p: nat| p < 64 ==> #[trigger] simhash_bit(d2, p) == simhash_bit(d1, p),
{
    assert forall|p: nat| p < 64 implies #[trigger] simhash_bit(d2, p) == simhash_bit(d1, p) by {
        lemma_count_set_after_flips(d1, d2, p);
        assert(count_flipped(d1, d2, p) == count_cleared(d1, d2, p) + count_cleared(d2, d1, p));
    }
}

/// A majority overturns a bit: if bit `p` is flipped, only away from the
/// current SimHash bit, in more than half of the digests, the SimHash bit
/// flips too.
pub proof fn lemma_majority_flip_flips_bit(d1: Seq<u64>, d2: Seq<u64>, p: nat)
    requires
        d1.len() == d2.len(),
        forall|i: int|
            0 <= i < d1.len() && bit_set(#[trigger] d1[i], p) != bit_set(d2[i], p) ==> bit_set(
                d1[i],
                p,
            ) == simhash_bit(d1, p),
        2 * count_flipped(d1, d2, p) > d1.len(),
    ensures
        simhash_bit(d2, p) != simhash_bit(d1, p),
{
    lemma_count_set_after_flips(d1, d2, p);
    lemma_count_set_bound(d1, p);
    if simhash_bit(d1, p) {
        lemma_none_cleared(d2, d1, p);
    } else {
        lemma_none_cleared(d1, d2, p);
    }
}

/// A tie is decided for the set bit: with an even number of digests and
/// exactly half of them setting bit `p`, the SimHash sets bit `p`.
pub proof fn lemma_tie_sets_bit(ds: Seq<u64>, p: nat)
    requires
        ds.len() % 2 == 0,
        2 * count_set(ds, p) == ds.len(),
    ensures
        simhash_bit(ds, p),
{
}

/// Relies on bit_vec: `BitVec`'s `FromIterator<bool>` keeps the bits in order,
/// and `BitVec::to_bytes` makes the first bit the high-order bit of the first
/// byte, filling the trailing bits of the last byte with `false`.
#[verifier::external_body]
fn pack_bits(bits: &Vec<bool>) -> (r: Vec<u8>)
    ensures
        r@.len() == bits@.len() / 8 + if bits@.len() % 8 == 0 { 0int } else { 1int },
        forall|i: int|
            0 <= i < bits@.len() ==> byte_bit(#[trigger] r@[i / 8], (7 - i % 8) as nat)
                == bits@[i],
        forall|i: int|
            bits@.len() <= i < r@.len() * 8 ==> !byte_bit(#[trigger] r@[i / 8], (7 - i % 8) as nat),
{
    let packed: BitVec<u64> = bits.iter().copied().collect();
    packed.to_bytes()
}

/// The SimHash of `hash_digests`: bit `p` of the result is set exactly when at
/// least half of the digests (rounded up) set bit `p`. The 64 bits come out as
/// eight bytes, bit 63 first. An empty digest sequence is a contract violation.
pub fn similarity_hash(hash_digests: Vec<u64>) -> (r: Vec<u8>)
    requires
        hash_digests.len() > 0,
    ensures
        holds_simhash(r@, hash_digests@),
{
    let n_digests = hash_digests.len();
    let ghost ds = hash_digests@;
    let mut bitcounts: Vec<u64> = Vec::new();
    let mut i: usize = 0;
    while i < 64
        invariant
            i <= 64,
            bitcounts@.len() == i,
            forall|k: int| 0 <= k < i ==> #[trigger] bitcounts@[k] == 0,
        decreases 64 - i,
    {
        bitcounts.push(0);
        i = i + 1;
    }
    let mut j: usize = 0;
    while j < n_digests
        invariant
            n_digests == ds.len(),
            ds == hash_digests@,
            j <= n_digests,
            bitcounts@.len() == 64,
            forall|k: int| 0 <= k < 64 ==> #[trigger] bitcounts@[k] == count_set(ds.take(j as int), k as nat),
        decreases n_digests - j,
    {
        let digest = hash_digests[j];
        assert(ds.take(j + 1).drop_last() =~= ds.take(j as int));
        assert(ds.take(j + 1).last() == digest);
        let mut i: usize = 0;
        while i < 64
            invariant
                n_digests == ds.len(),
                j < n_digests,
                digest == ds[j as int],
                ds.take(j + 1).drop_last() == ds.take(j as int),
                ds.take(j + 1).last() == digest,
                i <= 64,
                bitcounts@.len() == 64,
                forall|k: int| 0 <= k < i ==> #[trigger] bitcounts@[k] == count_set(ds.take(j + 1), k as nat),
                forall|k: int| i <= k < 64 ==> #[trigger] bitcounts@[k] == count_set(ds.take(j as int), k as nat),
            decreases 64 - i,
        {
            let bit_i: u64 = (digest >> i as u64) & 1;
            let ii = i as u64;
            assert(bit_i == 0 || bit_i == 1) by (bit_vector)
                requires bit_i == (digest >> ii) & 1u64;
            proof {
                lemma_count_set_bound(ds.take(j as int), i as nat);
            }
            let c = bitcounts[i];
            bitcounts.set(i, c + bit_i);
            i = i + 1;
        }
        j = j + 1;
    }
    assert(ds.take(n_digests as int) =~= ds);
    let minfeatures: u64 = (n_digests / 2 + n_digests % 2) as u64;
    let mut bits: Vec<bool> = Vec::new();
    let mut i: usize = 0;
    while i < 64
        invariant
            i <= 64,
            bitcounts@.len() == 64,
            minfeatures == majority_threshold(ds.len()),
            forall|k: int| 0 <= k < 64 ==> #[trigger] bitcounts@[k] == count_set(ds, k as nat),
            bits@.len() == i,
            forall|k: int| 0 <= k < i ==> #[trigger] bits@[k] == simhash_bit(ds, (63 - k) as nat),
        decreases 64 - i,
    {
        bits.push(bitcounts[63 - i] >= minfeatures);
        i = i + 1;
    }
    let r = pack_bits(&bits);
    assert forall|p: nat| p < 64 implies byte_bit(#[trigger] r@[7 - p / 8], p % 8) == simhash_bit(ds, p) by {
        let k: int = 63 - p;
        assert(k / 8 == 7 - p / 8 && 7 - k % 8 == p % 8);
        assert(bits@[k] == simhash_bit(ds, p));
    }
    r
}

} // verus!
