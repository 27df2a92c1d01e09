//! A deterministic micro-benchmark kernel: three CPU-bound numeric workloads,
//! the checksum mixer that folds their results over repeated runs, and the
//! option parser that configures a run. Every result is specified as a
//! mathematical function of its inputs, so two runs with equal options are
//! proved to report equal checksums.

pub mod affine_grid;
pub mod decimal;
pub mod harness;
pub mod mixer;
pub mod options;
pub mod prime_trial;
pub mod sum_xor;
