//! The three workloads under one name each, and the repeated run that folds
//! a workload's results into the checksum that a report shows.

use crate::affine_grid::{affine_grid_checksum, run_affine_grid};
use crate::mixer::{mix_all, mix_checksum};
use crate::options::BenchmarkOptions;
use crate::prime_trial::{prime_trial_checksum, run_prime_trial};
use crate::sum_xor::{run_sum_xor, sum_xor_checksum};
use vstd::prelude::*;

verus! {

/// One of the fixed computations that the harness times.
#[derive(Clone, Copy, Debug, PartialEq, Eq, Structural)]
pub enum Workload {
    /// The XOR-accumulation loop.
    SumXor,
    /// The trial-division scan.
    PrimeTrial,
    /// The affine grid.
    AffineGrid,
}

/// The workloads in the order in which a run executes and reports them.
pub open spec fn report_order() -> Seq<Workload> {
    seq![Workload::SumXor, Workload::PrimeTrial, Workload::AffineGrid]
}

/// The results of `rounds` rounds that each produced `value`.
pub open spec fn repeated(value: u64, rounds: nat) -> Seq<u64> {
    Seq::new(rounds, |round: int| value)
}

impl Workload {
    /// The result of one execution of the workload under `options`.
    pub open spec fn result(self, options: BenchmarkOptions) -> u64 {
        match self {
            Workload::SumXor => sum_xor_checksum(options.sum_n),
            Workload::PrimeTrial => prime_trial_checksum(options.prime_n as nat),
            Workload::AffineGrid => affine_grid_checksum(options.matrix_n as nat),
        }
    }

    /// The checksum that a run under `options` reports for the workload: its
    /// result mixed in once per iteration.
    pub open spec fn checksum(self, options: BenchmarkOptions) -> u64 {
        mix_all(repeated(self.result(options), options.iterations as nat))
    }

    /// The name of the workload in a report.
    pub fn name(self) -> (name: &'static str)
        ensures
            name@ == match self {
                Workload::SumXor => "sum_xor"@,
                Workload::PrimeTrial => "prime_trial"@,
                Workload::AffineGrid => "affine_grid"@,
            },
    {
        match self {
            Workload::SumXor => "sum_xor",
            Workload::PrimeTrial => "prime_trial",
            Workload::AffineGrid => "affine_grid",
        }
    }

    /// Executes the workload once with the bound that `options` gives it.
    pub fn run_once(self, options: &BenchmarkOptions) -> (value: u64)
        ensures
            value == self.result(*options),
    {
        match self {
            Workload::SumXor => run_sum_xor(options.sum_n),
            Workload::PrimeTrial => run_prime_trial(options.prime_n),
            Workload::AffineGrid => run_affine_grid(options.matrix_n),
        }
    }

    /// Executes the workload `options.iterations` times, one after the other,
    /// and mixes the result of each round into the checksum.
    pub fn run(self, options: &BenchmarkOptions) -> (checksum: u64)
        ensures
            checksum == self.checksum(*options),
    {
        let ghost value = self.result(*options);
        let mut checksum: u64 = 0;
        let mut round: usize = 0;
        while round < options.iterations
            invariant
                round <= options.iterations,
                value == self.result(*options),
                checksum == mix_all(repeated(value, round as nat)),
            decreases options.iterations - round,
        {
            let result = self.run_once(options);
            assert(repeated(value, (round + 1) as nat).drop_last() =~= repeated(
                value,
                round as nat,
            ));
            checksum = mix_checksum(checksum, result, round as u64);
            round += 1;
        }
        checksum
    }
}

/// Lists the workloads in the order in which a run executes and reports them.
pub fn workloads() -> (order: [Workload; 3])
    ensures
        order@ == report_order(),
{
    [Workload::SumXor, Workload::PrimeTrial, Workload::AffineGrid]
}

} // verus!
