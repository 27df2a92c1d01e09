//! The XOR-accumulation workload.

use vstd::arithmetic::div_mod::lemma_add_mod_noop;
use vstd::prelude::*;

verus! {

/// What the index `i` contributes to the accumulator: `(i XOR (i >> 3)) + (i mod 8)`, not reduced.
pub open spec fn sum_xor_term(i: u64) -> nat {
    ((i ^ (i >> 3)) + (i % 8)) as nat
}

/// The sum of the contributions of the indices `1` to `n`, as a natural number.
pub open spec fn sum_xor_total(n: u64) -> nat
    decreases n,
{
    if n == 0 {
        0
    } else {
        sum_xor_total((n - 1) as u64) + sum_xor_term(n)
    }
}

/// The result of the workload for the bound `n`: the sum of all contributions modulo 2^64.
pub open spec fn sum_xor_checksum(n: u64) -> u64 {
    (sum_xor_total(n) % 0x1_0000_0000_0000_0000) as u64
}

/// Runs the XOR-accumulation workload over the indices `1` to `n`.
pub fn run_sum_xor(n: u64) -> (checksum: u64)
    ensures
        checksum == sum_xor_checksum(n),
{
    let mut acc: u64 = 0;
    let mut i: u64 = 0;
    while i < n
        invariant
            i <= n,
            acc == sum_xor_checksum(i),
        decreases n - i,
    {
        i += 1;
        let term = (i ^ (i >> 3)).wrapping_add(i % 8);
        proof {
            lemma_add_mod_noop(
                sum_xor_total((i - 1) as u64) as int,
                sum_xor_term(i) as int,
                0x1_0000_0000_0000_0000,
            );
        }
        acc = acc.wrapping_add(term);
    }
    acc
}

} // verus!
