//! The affine-grid workload: an `n` by `n` grid whose cells are inner
//! products of two affine coefficient patterns, digested in row-major order.

use vstd::arithmetic::div_mod::{
    lemma_add_mod_noop,
    lemma_fundamental_div_mod_converse,
    lemma_mod_mod,
    lemma_mul_mod_noop_left,
};
use vstd::prelude::*;

verus! {

/// The factor by which a cell's row-major index enters its contribution.
pub const INDEX_FACTOR: u64 = 2_654_435_761;

/// The left coefficient at `(row, k)`.
pub open spec fn coefficient_a(row: nat, k: nat) -> nat {
    (row * 131 + k * 17 + 13) % 256
}

/// The right coefficient at `(k, col)`.
pub open spec fn coefficient_b(k: nat, col: nat) -> nat {
    (k * 19 + col * 97 + 53) % 256
}

/// The inner sum of the cell `(row, col)` over the first `terms` values of
/// `k`: the sum of `coefficient_a(row, k) * coefficient_b(k, col)`.
pub open spec fn inner_sum(row: nat, col: nat, terms: nat) -> nat
    decreases terms,
{
    if terms == 0 {
        0
    } else {
        let k = (terms - 1) as nat;
        inner_sum(row, col, k) + coefficient_a(row, k) * coefficient_b(k, col)
    }
}

/// What the cell `(row, col)` of the grid of side `n` contributes: its inner
/// sum over all `n` values of `k`, plus its row-major index times
/// `INDEX_FACTOR`, modulo 2^64.
pub open spec fn cell_contribution(n: nat, row: nat, col: nat) -> u64 {
    ((inner_sum(row, col, n) + (row * n + col) * INDEX_FACTOR) % 0x1_0000_0000_0000_0000) as u64
}

/// The XOR of the contributions of the first `cells` cells of the grid of
/// side `n`, in row-major order.
pub open spec fn grid_digest(n: nat, cells: nat) -> u64
    decreases cells,
{
    if cells == 0 || n == 0 {
        0
    } else {
        let index = (cells - 1) as nat;
        grid_digest(n, index) ^ cell_contribution(n, index / n, index % n)
    }
}

/// The result of the workload for the grid side `n`: the digest of all `n * n` cells.
pub open spec fn affine_grid_checksum(n: nat) -> u64 {
    grid_digest(n, n * n)
}

/// An affine form computed with 64-bit wrap-around has the same residue
/// modulo 256 as the form computed without any reduction.
proof fn lemma_wrapped_affine_residue(x: u64, p: u64, y: u64, q: u64, c: u64, wrapped: u64)
    requires
        wrapped == x.wrapping_mul(p).wrapping_add(y.wrapping_mul(q)).wrapping_add(c),
    ensures
        wrapped % 256 == (x * p + y * q + c) % 256,
{
    let modulus = 0x1_0000_0000_0000_0000int;
    let xp = x as int * p as int;
    let yq = y as int * q as int;
    lemma_add_mod_noop(xp, yq, modulus);
    lemma_add_mod_noop(xp + yq, c as int, modulus);
    assert(wrapped == (xp + yq + c) % modulus);
    lemma_mod_mod(xp + yq + c, 256, 0x100_0000_0000_0000);
}

/// Computes the left coefficient at `(row, k)` in 64-bit wrap-around arithmetic.
pub fn left_coefficient(row: usize, k: usize) -> (a: u64)
    ensures
        a == coefficient_a(row as nat, k as nat),
{
    let wrapped = (row as u64).wrapping_mul(131).wrapping_add((k as u64).wrapping_mul(17))
        .wrapping_add(13);
    proof {
        lemma_wrapped_affine_residue(row as u64, 131, k as u64, 17, 13, wrapped);
    }
    wrapped % 256
}

/// Computes the right coefficient at `(k, col)` in 64-bit wrap-around arithmetic.
pub fn right_coefficient(k: usize, col: usize) -> (b: u64)
    ensures
        b == coefficient_b(k as nat, col as nat),
{
    let wrapped = (k as u64).wrapping_mul(19).wrapping_add((col as u64).wrapping_mul(97))
        .wrapping_add(53);
    proof {
        lemma_wrapped_affine_residue(k as u64, 19, col as u64, 97, 53, wrapped);
    }
    wrapped % 256
}

/// Computes the contribution of the cell `(row, col)` of the grid of side `n`.
pub fn grid_cell(n: usize, row: usize, col: usize) -> (contribution: u64)
    requires
        row < n,
        col < n,
    ensures
        contribution == cell_contribution(n as nat, row as nat, col as nat),
{
    let ghost modulus = 0x1_0000_0000_0000_0000int;
    let mut acc: u64 = 0;
    let mut k: usize = 0;
    while k < n
        invariant
            k <= n,
            acc == inner_sum(row as nat, col as nat, k as nat) % 0x1_0000_0000_0000_0000,
        decreases n - k,
    {
        let a = left_coefficient(row, k);
        let b = right_coefficient(k, col);
        proof {
            assert(a * b <= 255 * 255) by (nonlinear_arith)
                requires
                    a <= 255,
                    b <= 255,
            ;
            lemma_add_mod_noop(
                inner_sum(row as nat, col as nat, k as nat) as int,
                a * b,
                0x1_0000_0000_0000_0000,
            );
        }
        acc = acc.wrapping_add(a.wrapping_mul(b));
        k += 1;
    }
    let index = (row as u64).wrapping_mul(n as u64).wrapping_add(col as u64);
    let offset = index.wrapping_mul(INDEX_FACTOR);
    proof {
        let position = row as int * n as int + col as int;
        let total = inner_sum(row as nat, col as nat, n as nat) as int;
        assert(0 <= row as int * n as int) by (nonlinear_arith);
        lemma_add_mod_noop(row as int * n as int, col as int, modulus);
        assert(index == position % modulus);
        lemma_mul_mod_noop_left(position, INDEX_FACTOR as int, modulus);
        assert(offset == (position * INDEX_FACTOR) % modulus);
        lemma_add_mod_noop(total, position * INDEX_FACTOR, modulus);
        assert(0 <= position * INDEX_FACTOR) by (nonlinear_arith)
            requires
                0 <= position,
        ;
    }
    acc.wrapping_add(offset)
}

/// Runs the affine-grid workload on the grid of side `n`.
pub fn run_affine_grid(n: usize) -> (checksum: u64)
    ensures
        checksum == affine_grid_checksum(n as nat),
        n == 0 ==> checksum == 0,
{
    if n == 0 {
        assert(0nat * 0nat == 0) by (nonlinear_arith);
        return 0;
    }
    let mut checksum: u64 = 0;
    let mut row: usize = 0;
    while row < n
        invariant
            0 < n,
            row <= n,
            checksum == grid_digest(n as nat, (row * n) as nat),
        decreases n - row,
    {
        let mut col: usize = 0;
        while col < n
            invariant
                0 < n,
                row < n,
                col <= n,
                checksum == grid_digest(n as nat, (row * n + col) as nat),
            decreases n - col,
        {
            let contribution = grid_cell(n, row, col);
            proof {
                let index = row as int * n as int + col as int;
                assert(0 <= row as int * n as int) by (nonlinear_arith);
                lemma_fundamental_div_mod_converse(index, n as int, row as int, col as int);
            }
            checksum ^= contribution;
            col += 1;
        }
        proof {
            assert(row * n + n == (row + 1) * n) by (nonlinear_arith);
        }
        row += 1;
    }
    checksum
}

} // verus!
