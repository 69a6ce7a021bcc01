//! Planning: which benchmarks run, with which toolchains, under which
//! options.
//!
//! A toolchain spec is either one named release or a date range that
//! enumerates one dated nightly per day.  A filter selects benchmarks by
//! runner assignment.  Crossing the selected benchmarks with the enumerated
//! toolchains yields the run plans of one batch.

use vstd::prelude::*;
use vstd::string::StringExecFns;

use crate::benchmark::Benchmark;
use crate::cpu_shield::ShieldSpec;
use crate::date::Date;
use crate::paths::stem_of;
use crate::run_plan::RunPlan;
use crate::textfmt::str_eq;
use crate::toolchain::Toolchain;

verus! {

/// The views of a sequence of toolchains.
pub open spec fn tc_views(s: Seq<Toolchain>) -> Seq<Seq<char>> {
    s.map_values(|t: Toolchain| t@)
}

/// The name of the nightly released on `d`.
pub open spec fn spec_nightly_name(d: Date) -> Seq<char> {
    "nightly-"@ + d.spec_iso()
}

/// The names of every nightly from `start` through `end`, one per day;
/// empty when `start` is after `end`.
pub open spec fn spec_nightlies(start: Date, end: Date) -> Seq<Seq<char>>
    decreases end.encoding() - start.encoding() + 1,
        when start.valid() && end.valid()
{
    if start.encoding() > end.encoding() {
        Seq::empty()
    } else if start == end {
        seq![spec_nightly_name(start)]
    } else {
        seq![spec_nightly_name(start)] + spec_nightlies(start.spec_succ(), end)
    }
}

/// Which toolchains a batch runs with: one named release, or every nightly
/// in a date range.
#[derive(Debug)]
pub enum ToolchainSpec {
    Single(String),
    Range(Date, Date),
}

impl ToolchainSpec {
    /// Whether the spec's dates name real calendar days.
    pub open spec fn spec_valid(&self) -> bool {
        match self {
            ToolchainSpec::Single(_) => true,
            ToolchainSpec::Range(start, end) => start.valid() && end.valid(),
        }
    }

    /// The toolchains this spec names, as name sequences.
    pub open spec fn spec_all(&self) -> Seq<Seq<char>> {
        match self {
            ToolchainSpec::Single(s) => seq![s@],
            ToolchainSpec::Range(start, end) => spec_nightlies(*start, *end),
        }
    }

    /// Enumerates every toolchain this spec names: the single release, or
    /// one nightly per day of the range, in date order.
    pub fn all_of_em(&self) -> (r: Vec<Toolchain>)
        requires
            self.spec_valid(),
        ensures
            tc_views(r@) == self.spec_all(),
    {
        let mut out: Vec<Toolchain> = Vec::new();
        match self {
            ToolchainSpec::Single(s) => {
                out.push(Toolchain::from(s.as_str()));
                proof {
                    assert(tc_views(out@) =~= self.spec_all());
                }
            },
            ToolchainSpec::Range(start, end) => {
                let mut current = *start;
                let mut finished = !current.le(end);
                proof {
                    if finished {
                        assert(tc_views(out@) =~= Seq::<Seq<char>>::empty());
                    }
                }
                while !finished
                    invariant
                        start.valid(),
                        end.valid(),
                        current.valid(),
                        !finished ==> current.encoding() <= end.encoding(),
                        !finished ==> tc_views(out@) + spec_nightlies(current, *end)
                            == spec_nightlies(*start, *end),
                        finished ==> tc_views(out@) == spec_nightlies(*start, *end),
                    decreases (if finished {
                        0int
                    } else {
                        end.encoding() - current.encoding() + 1
                    }),
                {
                    let mut name = "nightly-".to_owned();
                    let iso = current.iso();
                    name.append(iso.as_str());
                    out.push(Toolchain::from(name.as_str()));
                    let ghost pre = tc_views(out@.drop_last());
                    proof {
                        assert(tc_views(out@) =~= pre.push(spec_nightly_name(current)));
                    }
                    if current.year == end.year && current.month == end.month && current.day
                        == end.day {
                        finished = true;
                        proof {
                            assert(current == *end);
                            assert(spec_nightlies(current, *end) =~= seq![
                                spec_nightly_name(current),
                            ]);
                            assert(tc_views(out@) =~= spec_nightlies(*start, *end));
                        }
                    } else {
                        proof {
                            assert(current != *end);
                            assert(spec_nightlies(current, *end) == seq![
                                spec_nightly_name(current),
                            ] + spec_nightlies(current.spec_succ(), *end));
                            assert(tc_views(out@) + spec_nightlies(current.spec_succ(), *end)
                                =~= spec_nightlies(*start, *end));
                        }
                        current = current.succ();
                        proof {
                            if current.encoding() > end.encoding() {
                                assert(spec_nightlies(current, *end)
                                    =~= Seq::<Seq<char>>::empty());
                                assert(tc_views(out@) =~= spec_nightlies(*start, *end));
                                assert(false);
                            }
                        }
                    }
                }
            },
        }
        out
    }
}

/// Which benchmarks a batch runs: all of them, or those assigned to one
/// runner.
#[derive(Debug)]
pub enum BenchFilter {
    All,
    Runner(String),
}

impl BenchFilter {
    /// Whether `bench` passes this filter.
    pub open spec fn spec_matches(&self, runner: Option<Seq<char>>) -> bool {
        match (self, runner) {
            (BenchFilter::All, _) => true,
            (BenchFilter::Runner(current), Some(required)) => current@ == required,
            _ => false,
        }
    }

    /// Whether `bench` passes this filter.
    pub fn matches(&self, bench: &Benchmark) -> (r: bool)
        ensures
            r == self.spec_matches(bench.runner_view()),
    {
        match (self, &bench.runner) {
            (BenchFilter::All, _) => true,
            (BenchFilter::Runner(current), Some(required)) => str_eq(
                current.as_str(),
                required.as_str(),
            ),
            _ => false,
        }
    }
}

/// The options one batch runs under.
#[derive(Debug)]
pub struct BenchOpts {
    pub shield_spec: Option<ShieldSpec>,
    pub filter: BenchFilter,
    pub toolchains: ToolchainSpec,
}

impl BenchOpts {
    /// Options without CPU isolation.
    pub fn unshielded(filter: BenchFilter, toolchains: ToolchainSpec) -> (r: BenchOpts)
        ensures
            r.shield_spec is None,
            r.filter == filter,
            r.toolchains == toolchains,
    {
        BenchOpts { filter, toolchains, shield_spec: None }
    }

    /// Options that measure under the given CPU shield.
    pub fn shielded(filter: BenchFilter, toolchains: ToolchainSpec, shield: ShieldSpec) -> (r:
        BenchOpts)
        ensures
            (r.shield_spec matches Some(s) && s@ == shield@),
            r.filter == filter,
            r.toolchains == toolchains,
    {
        BenchOpts { filter, toolchains, shield_spec: Some(shield) }
    }
}

/// One benchmark with its entrypoint and build manifest resolved on disk.
#[derive(Debug)]
pub struct ResolvedBench {
    pub benchmark: Benchmark,
    pub source_path: String,
    pub manifest_path: String,
}

/// All of the benchmarks which should be run, with which options: the cross
/// product of the filtered benchmarks and the enumerated toolchains.
#[derive(Debug)]
pub struct Plans {
    /// When the plan was generated (seconds of UTC time).
    pub generated_at: i64,
    /// All of the benchmarks which should be run, with which options.
    pub plans: Vec<RunPlan>,
}

/// How many resolved benchmarks pass the filter.
pub open spec fn spec_count_matching(s: Seq<ResolvedBench>, filter: BenchFilter) -> nat
    decreases s.len(),
{
    if s.len() == 0 {
        0
    } else {
        spec_count_matching(s.drop_last(), filter) + (if filter.spec_matches(
            s.last().benchmark.runner_view(),
        ) {
            1nat
        } else {
            0nat
        })
    }
}

/// The names that pair one plan of a batch: which toolchain runs which
/// benchmark, from which sources.
pub struct PlanPairV {
    pub toolchain: Seq<char>,
    pub bench_key: Seq<char>,
    pub runner: Option<Seq<char>>,
    pub source_path: Seq<char>,
    pub manifest_path: Seq<char>,
}

/// The pairing names of one built plan.
pub open spec fn plan_pair(p: RunPlan) -> PlanPairV {
    PlanPairV {
        toolchain: (match p.toolchain_view() {
            Some(t) => t,
            None => Seq::empty(),
        }),
        bench_key: p.benchmark.spec_key(),
        runner: p.benchmark.runner_view(),
        source_path: p.source_path@,
        manifest_path: p.manifest_path@,
    }
}

/// The pairing names of a sequence of plans.
pub open spec fn plan_pairs(s: Seq<RunPlan>) -> Seq<PlanPairV> {
    s.map_values(|p: RunPlan| plan_pair(p))
}

/// The pair the toolchain named `tc` forms with one resolved benchmark.
pub open spec fn bench_pair(tc: Seq<char>, rb: ResolvedBench) -> PlanPairV {
    PlanPairV {
        toolchain: tc,
        bench_key: rb.benchmark.spec_key(),
        runner: rb.benchmark.runner_view(),
        source_path: rb.source_path@,
        manifest_path: rb.manifest_path@,
    }
}

/// One toolchain's row of the batch: a pair per benchmark that passes the
/// filter, in catalogue order.
pub open spec fn spec_row(
    tc: Seq<char>,
    benches: Seq<ResolvedBench>,
    filter: BenchFilter,
) -> Seq<PlanPairV>
    decreases benches.len(),
{
    if benches.len() == 0 {
        Seq::empty()
    } else if filter.spec_matches(benches.last().benchmark.runner_view()) {
        spec_row(tc, benches.drop_last(), filter) + seq![bench_pair(tc, benches.last())]
    } else {
        spec_row(tc, benches.drop_last(), filter)
    }
}

/// The whole batch: one row per enumerated toolchain, in toolchain order.
pub open spec fn spec_batch(
    tcs: Seq<Seq<char>>,
    benches: Seq<ResolvedBench>,
    filter: BenchFilter,
) -> Seq<PlanPairV>
    decreases tcs.len(),
{
    if tcs.len() == 0 {
        Seq::empty()
    } else {
        spec_batch(tcs.drop_last(), benches, filter) + spec_row(tcs.last(), benches, filter)
    }
}

impl Plans {
    /// Builds the batch: for every enumerated toolchain, one plan per
    /// benchmark that passes the filter, all sharing the options' shield.
    pub fn new(benches: &Vec<ResolvedBench>, opts: &BenchOpts, generated_at: i64) -> (r: Plans)
        requires
            opts.toolchains.spec_valid(),
            forall|i: int|
                0 <= i < benches@.len() ==> stem_of(
                    (#[trigger] benches@[i]).source_path@,
                ).len() > 0,
        ensures
            r.generated_at == generated_at,
            r.plans@.len() == opts.toolchains.spec_all().len() * spec_count_matching(
                benches@,
                opts.filter,
            ),
            forall|i: int|
                0 <= i < r.plans@.len() ==> (#[trigger] r.plans@[i]).shield_view() == (
                match opts.shield_spec {
                    Some(s) => Some(s@),
                    None => None,
                }) && r.plans@[i].bench_config is None && r.plans@[i].toolchain_view() is Some
                    && opts.filter.spec_matches(r.plans@[i].benchmark.runner_view()),
            plan_pairs(r.plans@) == spec_batch(
                opts.toolchains.spec_all(),
                benches@,
                opts.filter,
            ),
    {
        let toolchains = opts.toolchains.all_of_em();
        let mut plans: Vec<RunPlan> = Vec::new();
        let mut t: usize = 0;
        while t < toolchains.len()
            invariant
                opts.toolchains.spec_valid(),
                forall|i: int|
                    0 <= i < benches@.len() ==> stem_of(
                        (#[trigger] benches@[i]).source_path@,
                    ).len() > 0,
                tc_views(toolchains@) == opts.toolchains.spec_all(),
                t <= toolchains@.len(),
                plans@.len() == t * spec_count_matching(benches@, opts.filter),
                plan_pairs(plans@) == spec_batch(
                    tc_views(toolchains@).subrange(0, t as int),
                    benches@,
                    opts.filter,
                ),
                forall|i: int|
                    0 <= i < plans@.len() ==> (#[trigger] plans@[i]).shield_view() == (
                    match opts.shield_spec {
                        Some(s) => Some(s@),
                        None => None,
                    }) && plans@[i].bench_config is None && plans@[i].toolchain_view() is Some
                        && opts.filter.spec_matches(plans@[i].benchmark.runner_view()),
            decreases toolchains@.len() - t,
        {
            let mut b: usize = 0;
            let ghost base = plans@.len();
            while b < benches.len()
                invariant
                    opts.toolchains.spec_valid(),
                    forall|i: int|
                        0 <= i < benches@.len() ==> stem_of(
                            (#[trigger] benches@[i]).source_path@,
                        ).len() > 0,
                    t < toolchains@.len(),
                    b <= benches@.len(),
                    tc_views(toolchains@) == opts.toolchains.spec_all(),
                    plans@.len() == base + spec_count_matching(
                        benches@.subrange(0, b as int),
                        opts.filter,
                    ),
                    plan_pairs(plans@) == spec_batch(
                        tc_views(toolchains@).subrange(0, t as int),
                        benches@,
                        opts.filter,
                    ) + spec_row(
                        tc_views(toolchains@)[t as int],
                        benches@.subrange(0, b as int),
                        opts.filter,
                    ),
                    forall|i: int|
                        0 <= i < plans@.len() ==> (#[trigger] plans@[i]).shield_view() == (
                        match opts.shield_spec {
                            Some(s) => Some(s@),
                            None => None,
                        }) && plans@[i].bench_config is None && plans@[i].toolchain_view()
                            is Some && opts.filter.spec_matches(
                            plans@[i].benchmark.runner_view(),
                        ),
                decreases benches@.len() - b,
            {
                proof {
                    assert(benches@.subrange(0, b + 1).drop_last() =~= benches@.subrange(
                        0,
                        b as int,
                    ));
                    assert(benches@.subrange(0, b + 1).last() == benches@[b as int]);
                }
                let rb = &benches[b];
                let ghost plans0 = plans@;
                let ghost tc = tc_views(toolchains@)[t as int];
                if opts.filter.matches(&rb.benchmark) {
                    let shield = match &opts.shield_spec {
                        Some(s) => Some(s.clone()),
                        None => None,
                    };
                    let plan = RunPlan::new(
                        rb.benchmark.clone(),
                        None,
                        shield,
                        Some(toolchains[t].clone()),
                        rb.source_path.clone(),
                        rb.manifest_path.clone(),
                    );
                    plans.push(plan);
                    proof {
                        assert(plans@.drop_last() =~= plans0);
                        assert(tc == toolchains@[t as int]@);
                        assert(plan_pair(plans@.last()) == bench_pair(tc, benches@[b as int]));
                        assert(plan_pairs(plans@) =~= plan_pairs(plans0) + seq![
                            plan_pair(plans@.last()),
                        ]);
                        assert(spec_row(tc, benches@.subrange(0, b + 1), opts.filter)
                            == spec_row(tc, benches@.subrange(0, b as int), opts.filter) + seq![
                            bench_pair(tc, benches@[b as int]),
                        ]);
                        assert(plan_pairs(plans@) =~= spec_batch(
                            tc_views(toolchains@).subrange(0, t as int),
                            benches@,
                            opts.filter,
                        ) + spec_row(tc, benches@.subrange(0, b + 1), opts.filter));
                    }
                } else {
                    proof {
                        assert(spec_row(tc, benches@.subrange(0, b + 1), opts.filter)
                            == spec_row(tc, benches@.subrange(0, b as int), opts.filter));
                    }
                }
                b = b + 1;
            }
            proof {
                assert(benches@.subrange(0, benches@.len() as int) =~= benches@);
                assert((t as int) * spec_count_matching(benches@, opts.filter)
                    + spec_count_matching(benches@, opts.filter) == (t + 1)
                    * spec_count_matching(benches@, opts.filter)) by (nonlinear_arith);
                let tcs = tc_views(toolchains@);
                assert(tcs.subrange(0, t + 1).drop_last() =~= tcs.subrange(0, t as int));
                assert(tcs.subrange(0, t + 1).last() == tcs[t as int]);
            }
            t = t + 1;
        }
        proof {
            assert(toolchains@.len() == opts.toolchains.spec_all().len());
            assert(tc_views(toolchains@).subrange(0, toolchains@.len() as int) =~= tc_views(
                toolchains@,
            ));
        }
        Plans { generated_at, plans }
    }
}

} // verus!
