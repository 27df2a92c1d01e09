//! The trial-division workload: counts the primes up to a bound and digests
//! them in the order in which they are found.

use vstd::arithmetic::div_mod::{
    lemma_add_mod_noop,
    lemma_fundamental_div_mod,
    lemma_mod_multiples_basic,
};
use vstd::prelude::*;

verus! {

/// Whether `d` divides `n` evenly.
pub open spec fn divides(d: nat, n: nat) -> bool {
    d > 0 && n % d == 0
}

/// Whether `n` is a prime number: at least 2, and divisible by no number
/// strictly between 1 and itself.
pub open spec fn is_prime(n: nat) -> bool {
    n >= 2 && forall|d: nat| 2 <= d < n ==> !#[trigger] divides(d, n)
}

/// The number of primes that are at most `n`.
pub open spec fn prime_count(n: nat) -> nat
    decreases n,
{
    if n < 2 {
        0
    } else if is_prime(n) {
        prime_count((n - 1) as nat) + 1
    } else {
        prime_count((n - 1) as nat)
    }
}

/// The sum, over the primes `p` that are at most `n`, of `p` times its
/// weight: one more than the rank of `p` among the primes, taken modulo 16.
pub open spec fn weighted_prime_sum(n: nat) -> nat
    decreases n,
{
    if n < 2 {
        0
    } else if is_prime(n) {
        weighted_prime_sum((n - 1) as nat) + n * (prime_count(n) % 16 + 1)
    } else {
        weighted_prime_sum((n - 1) as nat)
    }
}

/// The count and the digest packed into one word: the count shifted left by
/// 32 bits, XORed with the digest.
pub open spec fn pack_count_and_digest(count: u64, digest: u64) -> u64 {
    (count << 32) ^ digest
}

/// The result of the workload for the bound `n`: the number of primes up to
/// `n` packed with their weighted sum modulo 2^64.
pub open spec fn prime_trial_checksum(n: nat) -> u64 {
    pack_count_and_digest(
        prime_count(n) as u64,
        (weighted_prime_sum(n) % 0x1_0000_0000_0000_0000) as u64,
    )
}

/// There are at most `n - 1` primes up to `n`.
pub proof fn lemma_prime_count_bound(n: nat)
    ensures
        prime_count(n) <= n,
        n >= 1 ==> prime_count(n) < n,
    decreases n,
{
    if n >= 2 {
        lemma_prime_count_bound((n - 1) as nat);
    }
}

/// The weighted sum of the primes up to `n` is at most `16 * n * n`.
pub proof fn lemma_weighted_prime_sum_bound(n: nat)
    ensures
        weighted_prime_sum(n) <= 16 * n * n,
    decreases n,
{
    if n >= 2 {
        let m = (n - 1) as nat;
        lemma_weighted_prime_sum_bound(m);
        assert(n * (prime_count(n) % 16 + 1) <= 16 * n) by (nonlinear_arith)
            requires
                prime_count(n) % 16 + 1 <= 16,
        ;
        assert(16 * m * m + 16 * n <= 16 * n * n) by (nonlinear_arith)
            requires
                m + 1 == n,
                n >= 2,
        ;
    } else {
        assert(0 <= 16 * n * n) by (nonlinear_arith);
    }
}

/// While the count and the digest both fit in 32 bits, the packed word holds
/// the count in its high half and the digest in its low half.
pub proof fn lemma_packed_halves(count: u64, digest: u64)
    requires
        count < 0x1_0000_0000,
        digest < 0x1_0000_0000,
    ensures
        pack_count_and_digest(count, digest) >> 32 == count,
        pack_count_and_digest(count, digest) & 0xffff_ffff == digest,
{
    assert(((count << 32) ^ digest) >> 32 == count && ((count << 32) ^ digest) & 0xffff_ffff
        == digest) by (bit_vector)
        requires
            count < 0x1_0000_0000,
            digest < 0x1_0000_0000,
    ;
}

/// For every bound below 2^14 the high 32 bits of the workload's result are
/// the number of primes up to the bound, and the low 32 bits their weighted sum.
pub proof fn lemma_small_bound_shows_count(n: nat)
    requires
        n < 16384,
    ensures
        prime_trial_checksum(n) >> 32 == prime_count(n),
        prime_trial_checksum(n) & 0xffff_ffff == weighted_prime_sum(n),
{
    lemma_prime_count_bound(n);
    lemma_weighted_prime_sum_bound(n);
    assert(16 * n * n < 0x1_0000_0000) by (nonlinear_arith)
        requires
            n < 16384,
    ;
    lemma_packed_halves(prime_count(n) as u64, weighted_prime_sum(n) as u64);
}

/// A number with a divisor strictly between 1 and itself has such a divisor
/// whose square does not exceed it.
pub proof fn lemma_small_divisor(n: nat, d: nat) -> (e: nat)
    requires
        2 <= d < n,
        divides(d, n),
    ensures
        2 <= e,
        e * e <= n,
        divides(e, n),
{
    let q = n / d;
    lemma_fundamental_div_mod(n as int, d as int);
    assert(n == d * q);
    assert(q >= 2) by (nonlinear_arith)
        requires
            n == d * q,
            2 <= d < n,
    ;
    if d <= q {
        assert(d * d <= d * q) by (nonlinear_arith)
            requires
                d <= q,
        ;
        d
    } else {
        assert(q * q <= d * q) by (nonlinear_arith)
            requires
                q < d,
        ;
        lemma_mod_multiples_basic(d as int, q as int);
        q
    }
}

/// Decides by trial division whether `candidate` is prime: tries the divisors
/// from 2 upward while their square does not exceed `candidate`, and stops at
/// the first that divides it.
pub fn is_prime_by_trial_division(candidate: usize) -> (prime: bool)
    ensures
        prime == is_prime(candidate as nat),
{
    if candidate < 2 {
        return false;
    }
    let mut divisor: usize = 2;
    loop
        invariant
            2 <= divisor <= candidate,
            forall|d: nat| 2 <= d < divisor ==> !#[trigger] divides(d, candidate as nat),
        decreases candidate - divisor,
    {
        assert(divisor * divisor <= u128::MAX) by (nonlinear_arith)
            requires
                divisor <= u64::MAX,
        ;
        let square = (divisor as u128) * (divisor as u128);
        if square > candidate as u128 {
            proof {
                assert forall|d: nat| 2 <= d < candidate implies !#[trigger] divides(
                    d,
                    candidate as nat,
                ) by {
                    if divides(d, candidate as nat) {
                        let e = lemma_small_divisor(candidate as nat, d);
                        assert(e < divisor) by (nonlinear_arith)
                            requires
                                e * e <= candidate,
                                divisor * divisor > candidate,
                        ;
                    }
                }
            }
            return true;
        }
        if candidate % divisor == 0 {
            proof {
                assert(divisor < candidate) by (nonlinear_arith)
                    requires
                        divisor * divisor <= candidate,
                        2 <= divisor,
                ;
                assert(divides(divisor as nat, candidate as nat));
            }
            return false;
        }
        proof {
            assert(divisor < candidate) by (nonlinear_arith)
                requires
                    divisor * divisor <= candidate,
                    2 <= divisor,
            ;
        }
        divisor += 1;
    }
}

/// Runs the trial-division workload over the candidates `2` to `n`.
pub fn run_prime_trial(n: usize) -> (checksum: u64)
    ensures
        checksum == prime_trial_checksum(n as nat),
        n < 2 ==> checksum == 0,
{
    if n < 2 {
        assert((0u64 << 32) ^ 0u64 == 0u64) by (bit_vector);
        return 0;
    }
    let mut found: u64 = 0;
    let mut digest: u64 = 0;
    let mut candidate: usize = 1;
    while candidate < n
        invariant
            1 <= candidate <= n,
            found == prime_count(candidate as nat),
            digest == weighted_prime_sum(candidate as nat) % 0x1_0000_0000_0000_0000,
        decreases n - candidate,
    {
        candidate += 1;
        proof {
            lemma_prime_count_bound(candidate as nat);
        }
        if is_prime_by_trial_division(candidate) {
            found += 1;
            let weight = (found % 16) + 1;
            let term = (candidate as u64).wrapping_mul(weight);
            proof {
                let modulus = 0x1_0000_0000_0000_0000int;
                let before = weighted_prime_sum((candidate - 1) as nat) as int;
                let product = candidate as int * weight as int;
                assert(term == product % modulus);
                lemma_add_mod_noop(before, product, modulus);
            }
            digest = digest.wrapping_add(term);
        }
    }
    (found << 32) ^ digest
}

} // verus!
