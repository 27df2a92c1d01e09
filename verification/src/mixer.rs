//! The checksum mixer: folds one scalar result per round into a rolling
//! 64-bit state.

use vstd::prelude::*;

verus! {

/// The additive constant of the mixer (the 64-bit golden-ratio increment).
pub const GOLDEN_GAMMA: u64 = 0x9e37_79b9_7f4a_7c15;

/// `x` rotated left by 13 bit positions within 64 bits.
pub open spec fn rotate_left_13(x: u64) -> u64 {
    (x << 13) | (x >> 51)
}

/// The value that one round XORs into the state: the sum
/// `value + GOLDEN_GAMMA + (iteration << 6) + (iteration >> 2)`, reduced modulo 2^64.
pub open spec fn mix_salt(value: u64, iteration: u64) -> u64 {
    ((value + GOLDEN_GAMMA + (iteration << 6) + (iteration >> 2)) % 0x1_0000_0000_0000_0000) as u64
}

/// The state after mixing `value` into `current` in round `iteration`.
pub open spec fn mix(current: u64, value: u64, iteration: u64) -> u64 {
    rotate_left_13(current ^ mix_salt(value, iteration))
}

/// Mixes the result `value` of round `iteration` into the rolling state `current`.
pub fn mix_checksum(current: u64, value: u64, iteration: u64) -> (mixed: u64)
    ensures
        mixed == mix(current, value, iteration),
{
    let salt = value.wrapping_add(GOLDEN_GAMMA).wrapping_add(iteration << 6).wrapping_add(
        iteration >> 2,
    );
    let keyed = current ^ salt;
    (keyed << 13) | (keyed >> 51)
}

/// The state after mixing the results `values` of the rounds `0`, `1`, ...
/// in turn into the initial state zero.
pub open spec fn mix_all(values: Seq<u64>) -> u64
    decreases values.len(),
{
    if values.len() == 0 {
        0
    } else {
        mix(mix_all(values.drop_last()), values.last(), (values.len() - 1) as u64)
    }
}

/// Within one round, different incoming states with the same result give different states.
pub proof fn lemma_mix_separates_states(c1: u64, c2: u64, value: u64, iteration: u64)
    requires
        c1 != c2,
    ensures
        mix(c1, value, iteration) != mix(c2, value, iteration),
{
    let salt = mix_salt(value, iteration);
    assert(((c1 ^ salt) << 13) | ((c1 ^ salt) >> 51) != ((c2 ^ salt) << 13) | ((c2 ^ salt) >> 51))
        by (bit_vector)
        requires
            c1 != c2,
    ;
}

/// Within one round, different results mixed into the same state give different states.
pub proof fn lemma_mix_separates_values(current: u64, v1: u64, v2: u64, iteration: u64)
    requires
        v1 != v2,
    ensures
        mix(current, v1, iteration) != mix(current, v2, iteration),
{
    let s1 = mix_salt(v1, iteration);
    let s2 = mix_salt(v2, iteration);
    assert(s1 != s2);
    assert(((current ^ s1) << 13) | ((current ^ s1) >> 51) != ((current ^ s2) << 13) | ((current
        ^ s2) >> 51)) by (bit_vector)
        requires
            s1 != s2,
    ;
}

/// A divergence in the result of exactly one round changes the final state:
/// two runs of equal length whose results differ in round `k` and nowhere
/// else end in different states.
pub proof fn lemma_single_divergence_changes_checksum(a: Seq<u64>, b: Seq<u64>, k: int)
    requires
        a.len() == b.len(),
        0 <= k < a.len(),
        a[k] != b[k],
        forall|j: int| 0 <= j < a.len() && j != k ==> a[j] == b[j],
    ensures
        mix_all(a) != mix_all(b),
    decreases a.len(),
{
    let last = a.len() - 1;
    if k == last {
        assert(a.drop_last() =~= b.drop_last());
        lemma_mix_separates_values(mix_all(a.drop_last()), a[k], b[k], last as u64);
    } else {
        lemma_single_divergence_changes_checksum(a.drop_last(), b.drop_last(), k);
        lemma_mix_separates_states(
            mix_all(a.drop_last()),
            mix_all(b.drop_last()),
            a.last(),
            last as u64,
        );
    }
}

} // verus!
