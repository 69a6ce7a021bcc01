//! One fully-resolved unit of work: a benchmark to build and measure with a
//! particular toolchain, under optional CPU isolation and optional harness
//! configuration.
//!
//! The plan derives everything the embedder needs to run the external build
//! tool: the binary name from the entrypoint's file stem, the target and
//! output paths, and the exact command lines and environment for building and
//! executing the benchmark binary.  The subprocess calls themselves happen
//! outside the library.

use vstd::prelude::*;
use vstd::string::StringExecFns;

use crate::benchmark::Benchmark;
use crate::cpu_shield::ShieldSpec;
use crate::paths::{path_stem, stem_of};
use crate::textfmt::strs;
use crate::toolchain::Toolchain;
use crate::CriterionConfig;

verus! {

/// One fully-resolved (benchmark, toolchain, isolation, configuration) unit
/// of work.
#[derive(Debug)]
pub struct RunPlan {
    /// Name of the binary the entrypoint builds into: its file stem.
    pub binary_name: String,
    pub benchmark: Benchmark,
    /// The toolchain to build with; the ambient one when absent.
    pub toolchain: Option<Toolchain>,
    pub bench_config: Option<CriterionConfig>,
    pub shield: Option<ShieldSpec>,
    /// Path of the entrypoint source file.
    pub source_path: String,
    /// Path of the build manifest governing the entrypoint.
    pub manifest_path: String,
}

/// A plan's component names and configuration.
pub struct RunPlanV {
    pub binary_name: Seq<char>,
    pub benchmark: crate::benchmark::BenchmarkV,
    pub toolchain: Option<Seq<char>>,
    pub bench_config: Option<CriterionConfig>,
    pub shield: Option<crate::cpu_shield::ShieldSpecV>,
    pub source_path: Seq<char>,
    pub manifest_path: Seq<char>,
}

impl View for RunPlan {
    type V = RunPlanV;

    open spec fn view(&self) -> RunPlanV {
        RunPlanV {
            binary_name: self.binary_name@,
            benchmark: self.benchmark@,
            toolchain: self.toolchain_view(),
            bench_config: self.bench_config,
            shield: self.shield_view(),
            source_path: self.source_path@,
            manifest_path: self.manifest_path@,
        }
    }
}

impl Clone for RunPlan {
    fn clone(&self) -> (r: RunPlan)
        ensures
            r@ == self@,
            r.binary_name@ == self.binary_name@,
            r.benchmark.spec_key() == self.benchmark.spec_key(),
            r.benchmark.runner_view() == self.benchmark.runner_view(),
            r.toolchain_view() == self.toolchain_view(),
            r.shield_view() == self.shield_view(),
            r.source_path@ == self.source_path@,
            r.manifest_path@ == self.manifest_path@,
            r.bench_config == self.bench_config,
    {
        RunPlan {
            binary_name: self.binary_name.clone(),
            benchmark: self.benchmark.clone(),
            toolchain: match &self.toolchain {
                Some(t) => Some(t.clone()),
                None => None,
            },
            bench_config: self.bench_config,
            shield: match &self.shield {
                Some(s) => Some(s.clone()),
                None => None,
            },
            source_path: self.source_path.clone(),
            manifest_path: self.manifest_path.clone(),
        }
    }
}

impl RunPlan {
    /// The toolchain name, for contracts.
    pub open spec fn toolchain_view(&self) -> Option<Seq<char>> {
        match self.toolchain {
            Some(t) => Some(t@),
            None => None,
        }
    }

    /// The shield configuration, for contracts.
    pub open spec fn shield_view(&self) -> Option<crate::cpu_shield::ShieldSpecV> {
        match self.shield {
            Some(s) => Some(s@),
            None => None,
        }
    }

    /// The directory builds of this plan write to: the toolchain's own
    /// target directory, or the ambient `target` when no toolchain is named.
    pub open spec fn spec_target_dir(&self) -> Seq<char> {
        match self.toolchain_view() {
            Some(t) => "/tmp/target-"@ + t,
            None => "target"@,
        }
    }

    /// Resolves a plan.  The binary name is the entrypoint's file stem; the
    /// manifest path is supplied by the caller, which probed the candidate
    /// paths of [`crate::paths::manifest_candidates`] on disk.
    pub fn new(
        benchmark: Benchmark,
        bench_config: Option<CriterionConfig>,
        shield: Option<ShieldSpec>,
        toolchain: Option<Toolchain>,
        source_path: String,
        manifest_path: String,
    ) -> (r: RunPlan)
        requires
            stem_of(source_path@).len() > 0,
        ensures
            r.binary_name@ == stem_of(source_path@),
            r.benchmark.spec_key() == benchmark.spec_key(),
            r.benchmark.runner_view() == benchmark.runner_view(),
            r.toolchain_view() == (match toolchain {
                Some(t) => Some(t@),
                None => None::<Seq<char>>,
            }),
            r.shield_view() == (match shield {
                Some(s) => Some(s@),
                None => None::<crate::cpu_shield::ShieldSpecV>,
            }),
            r.bench_config == bench_config,
            r.source_path@ == source_path@,
            r.manifest_path@ == manifest_path@,
    {
        let binary_name = path_stem(source_path.as_str());
        RunPlan {
            binary_name,
            benchmark,
            toolchain,
            bench_config,
            shield,
            source_path,
            manifest_path,
        }
    }

    /// The directory builds of this plan write to.
    pub fn target_dir(&self) -> (r: String)
        ensures
            r@ == self.spec_target_dir(),
    {
        match &self.toolchain {
            Some(t) => t.target_dir(),
            None => "target".to_owned(),
        }
    }

    /// Path of the binary a successful build leaves behind:
    /// `<target_dir>/release/<binary_name>`.
    pub fn binary_path(&self) -> (r: String)
        ensures
            r@ == self.spec_target_dir() + "/release/"@ + self.binary_name@,
    {
        let mut p = self.target_dir();
        p.append("/release/");
        p.append(self.binary_name.as_str());
        p
    }

    /// Arguments to the external build tool that build this plan's binary:
    /// `[+<toolchain>] build --release --manifest-path <manifest> --bin
    /// <binary>`.
    pub fn build_args(&self) -> (r: Vec<String>)
        ensures
            strs(r@) == self.spec_build_args(),
    {
        let mut args: Vec<String> = Vec::new();
        match &self.toolchain {
            Some(t) => {
                let mut plus = "+".to_owned();
                plus.append(t.as_str());
                args.push(plus);
            },
            None => {},
        }
        args.push("build".to_owned());
        args.push("--release".to_owned());
        args.push("--manifest-path".to_owned());
        args.push(self.manifest_path.clone());
        args.push("--bin".to_owned());
        args.push(self.binary_name.clone());
        proof {
            assert(strs(args@) =~= self.spec_build_args());
        }
        args
    }

    /// The build command line, as [`Self::build_args`] renders it.
    pub open spec fn spec_build_args(&self) -> Seq<Seq<char>> {
        let tail = seq![
            "build"@,
            "--release"@,
            "--manifest-path"@,
            self.manifest_path@,
            "--bin"@,
            self.binary_name@,
        ];
        match self.toolchain_view() {
            Some(t) => seq!["+"@ + t] + tail,
            None => tail,
        }
    }

    /// Arguments to the external build tool that run this plan's binary:
    /// `[+<toolchain>] run --release --manifest-path <manifest> --bin
    /// <binary>`.
    pub fn exec_args(&self) -> (r: Vec<String>)
        ensures
            strs(r@) == self.spec_exec_args(),
    {
        let mut args: Vec<String> = Vec::new();
        match &self.toolchain {
            Some(t) => {
                let mut plus = "+".to_owned();
                plus.append(t.as_str());
                args.push(plus);
            },
            None => {},
        }
        args.push("run".to_owned());
        args.push("--release".to_owned());
        args.push("--manifest-path".to_owned());
        args.push(self.manifest_path.clone());
        args.push("--bin".to_owned());
        args.push(self.binary_name.clone());
        proof {
            assert(strs(args@) =~= self.spec_exec_args());
        }
        args
    }

    /// The run command line, as [`Self::exec_args`] renders it.
    pub open spec fn spec_exec_args(&self) -> Seq<Seq<char>> {
        let tail = seq![
            "run"@,
            "--release"@,
            "--manifest-path"@,
            self.manifest_path@,
            "--bin"@,
            self.binary_name@,
        ];
        match self.toolchain_view() {
            Some(t) => seq!["+"@ + t] + tail,
            None => tail,
        }
    }

    /// The environment a build or run of this plan gets: the target
    /// directory, then one harness variable per configuration field when a
    /// configuration is present.
    #[verifier::loop_isolation(false)]
    pub fn exec_env(&self) -> (r: Vec<(String, String)>)
        requires
            (match self.bench_config {
                Some(c) => c.noise_threshold > i64::MIN && c.confidence_level > i64::MIN
                    && c.significance_level > i64::MIN,
                None => true,
            }),
        ensures
            r@.len() >= 1,
            r@[0].0@ == "CARGO_TARGET_DIR"@,
            r@[0].1@ == self.spec_target_dir(),
            self.bench_config is None ==> r@.len() == 1,
            (match self.bench_config {
                Some(c) => r@.len() == 8 && r@[1].0@ == "lolbench_sample_size"@ && r@[1].1@
                    == crate::textfmt::dec_digits(c.sample_size as nat) && r@[2].0@
                    == "lolbench_warm_up_time_ms"@ && r@[2].1@ == crate::textfmt::dec_digits(
                    c.warm_up_time_ms as nat,
                ) && r@[3].0@ == "lolbench_measurement_time_ms"@ && r@[3].1@
                    == crate::textfmt::dec_digits(c.measurement_time_ms as nat) && r@[4].0@
                    == "lolbench_nresamples"@ && r@[4].1@ == crate::textfmt::dec_digits(
                    c.nresamples as nat,
                ) && r@[5].0@ == "lolbench_noise_threshold"@ && r@[5].1@
                    == crate::fixed::spec_fixed_display(c.noise_threshold as int) && r@[6].0@
                    == "lolbench_confidence_level"@ && r@[6].1@
                    == crate::fixed::spec_fixed_display(c.confidence_level as int) && r@[7].0@
                    == "lolbench_significance_level"@ && r@[7].1@
                    == crate::fixed::spec_fixed_display(c.significance_level as int),
                None => true,
            }),
    {
        let mut env: Vec<(String, String)> = Vec::new();
        env.push(("CARGO_TARGET_DIR".to_owned(), self.target_dir()));
        match &self.bench_config {
            Some(cfg) => {
                let mut harness = cfg.envs();
                let ghost hv = harness@;
                let mut i: usize = 0;
                while i < harness.len()
                    invariant
                        env@.len() == 1 + i,
                        i <= harness@.len(),
                        harness@ == hv,
                        env@[0].0@ == "CARGO_TARGET_DIR"@,
                        env@[0].1@ == self.spec_target_dir(),
                        harness@.len() == 7,
                        forall|k: int|
                            1 <= k < 1 + i ==> (#[trigger] env@[k]).0@ == hv[k - 1].0@
                                && env@[k].1@ == hv[k - 1].1@,
                    decreases harness@.len() - i,
                {
                    let pair = (harness[i].0.clone(), harness[i].1.clone());
                    env.push(pair);
                    i = i + 1;
                }
            },
            None => {},
        }
        env
    }

    /// Directory the harness writes this plan's fresh statistics to:
    /// `<target_dir>/criterion/<crate>::<name>/new`.
    pub fn criterion_output_dir(&self) -> (r: String)
        ensures
            r@ == self.spec_target_dir() + "/criterion/"@ + self.benchmark.spec_key()
                + "/new"@,
    {
        let mut p = self.target_dir();
        p.append("/criterion/");
        let key = self.benchmark.key();
        p.append(key.as_str());
        p.append("/new");
        p
    }

    /// Path of the harness's wall-clock statistics file.
    pub fn runtime_estimates_path(&self) -> (r: String)
        ensures
            r@ == self.spec_target_dir() + "/criterion/"@ + self.benchmark.spec_key()
                + "/new"@ + "/estimates.json"@,
    {
        let mut p = self.criterion_output_dir();
        p.append("/estimates.json");
        p
    }

    /// Path of the harness's optional hardware-counter statistics file.
    pub fn metrics_estimates_path(&self) -> (r: String)
        ensures
            r@ == self.spec_target_dir() + "/criterion/"@ + self.benchmark.spec_key()
                + "/new"@ + "/metrics-estimates.json"@,
    {
        let mut p = self.criterion_output_dir();
        p.append("/metrics-estimates.json");
        p
    }

    /// A human-readable name for commit messages and logs:
    /// `<crate>::<name>@<runner>`, with `anonymous` for an unassigned plan.
    pub fn display_name(&self) -> (r: String)
        ensures
            r@ == self.benchmark.spec_key() + "@"@ + (match self.benchmark.runner_view() {
                Some(l) => l,
                None => "anonymous"@,
            }),
    {
        let mut name = self.benchmark.key();
        name.append("@");
        match &self.benchmark.runner {
            Some(l) => name.append(l.as_str()),
            None => name.append("anonymous"),
        }
        name
    }
}

} // verus!
