//! Memoized benchmark execution and regression analysis.
//!
//! The crate tracks, for a body of benchmarks run across many compiler
//! toolchains, which binaries have already been built and which binaries have
//! already been measured, so that no build and no measurement is ever repeated.
//! A content-addressed store maps (benchmark, toolchain) to the hash of the
//! compiled binary, and separately maps (binary hash, runner, isolation spec)
//! to measured statistics; two toolchains that produce bit-identical binaries
//! therefore share one measurement.  An analysis pass over a benchmark's
//! ordered history normalizes each record against the first and scores each
//! record against its predecessors with a kernel-density estimate and a
//! z-score, flagging regressions.
//!
//! All statistics are carried in fixed-point arithmetic (see [`fixed`]), so
//! that every formula in the analysis is stated and proved exactly.

pub mod analysis;
pub mod benchmark;
pub mod collect_result;
pub mod collector;
pub mod cpu_shield;
pub mod date;
pub mod estimates;
pub mod fixed;
pub mod hashing;
pub mod index;
pub mod measurement;
pub mod paths;
pub mod plan;
pub mod registry;
pub mod run_plan;
pub mod stats;
pub mod storage;
pub mod textfmt;
pub mod toolchain;

use vstd::prelude::*;
use vstd::string::StringExecFns;

use crate::fixed::spec_fixed_display;
use crate::textfmt::dec_digits;

verus! {

/// Harness configuration for one run: how many samples the harness takes and
/// the statistical knobs it applies.  Durations are in milliseconds; the
/// threshold and the two levels are fixed-point values.
#[derive(Debug, Clone, Copy, PartialEq, Eq, Structural)]
pub struct CriterionConfig {
    pub sample_size: usize,
    pub warm_up_time_ms: usize,
    pub measurement_time_ms: usize,
    pub nresamples: usize,
    pub noise_threshold: i64,
    pub confidence_level: i64,
    pub significance_level: i64,
}

impl CriterionConfig {
    /// The configuration as a block of harness environment variables, one per
    /// field, each named `lolbench_<field>`.
    pub fn envs(&self) -> (r: Vec<(String, String)>)
        requires
            self.noise_threshold > i64::MIN,
            self.confidence_level > i64::MIN,
            self.significance_level > i64::MIN,
        ensures
            r@.len() == 7,
            r@[0].0@ == "lolbench_sample_size"@ && r@[0].1@ == dec_digits(
                self.sample_size as nat,
            ),
            r@[1].0@ == "lolbench_warm_up_time_ms"@ && r@[1].1@ == dec_digits(
                self.warm_up_time_ms as nat,
            ),
            r@[2].0@ == "lolbench_measurement_time_ms"@ && r@[2].1@ == dec_digits(
                self.measurement_time_ms as nat,
            ),
            r@[3].0@ == "lolbench_nresamples"@ && r@[3].1@ == dec_digits(self.nresamples as nat),
            r@[4].0@ == "lolbench_noise_threshold"@ && r@[4].1@ == spec_fixed_display(
                self.noise_threshold as int,
            ),
            r@[5].0@ == "lolbench_confidence_level"@ && r@[5].1@ == spec_fixed_display(
                self.confidence_level as int,
            ),
            r@[6].0@ == "lolbench_significance_level"@ && r@[6].1@ == spec_fixed_display(
                self.significance_level as int,
            ),
    {
        let mut r: Vec<(String, String)> = Vec::new();
        r.push(
            ("lolbench_sample_size".to_owned(), crate::textfmt::dec_u64(self.sample_size as u64)),
        );
        r.push(
            (
                "lolbench_warm_up_time_ms".to_owned(),
                crate::textfmt::dec_u64(self.warm_up_time_ms as u64),
            ),
        );
        r.push(
            (
                "lolbench_measurement_time_ms".to_owned(),
                crate::textfmt::dec_u64(self.measurement_time_ms as u64),
            ),
        );
        r.push(
            ("lolbench_nresamples".to_owned(), crate::textfmt::dec_u64(self.nresamples as u64)),
        );
        r.push(
            (
                "lolbench_noise_threshold".to_owned(),
                crate::fixed::fixed_display(self.noise_threshold),
            ),
        );
        r.push(
            (
                "lolbench_confidence_level".to_owned(),
                crate::fixed::fixed_display(self.confidence_level),
            ),
        );
        r.push(
            (
                "lolbench_significance_level".to_owned(),
                crate::fixed::fixed_display(self.significance_level),
            ),
        );
        r
    }
}

} // verus!
