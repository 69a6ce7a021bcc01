//! The collector's two-level memoization.

use lolbench::benchmark::Benchmark;
use lolbench::collect_result::{CollectionResult, Error, ErrorKind};
use lolbench::collector::{Action, Collector};
use lolbench::estimates::{ConfidenceInterval, Estimate, Estimates, Statistic};
use lolbench::run_plan::RunPlan;
use lolbench::toolchain::Toolchain;

fn plan_for(toolchain: &str) -> RunPlan {
    RunPlan::new(
        Benchmark::new("serde", "roundtrip", "benches/serde/src/bin/roundtrip.rs"),
        None,
        None,
        Some(Toolchain::from(toolchain)),
        "benches/serde/src/bin/roundtrip.rs".to_string(),
        "benches/serde/Cargo.toml".to_string(),
    )
}

fn sample_estimates() -> Estimates {
    let e = Estimate {
        confidence_interval: ConfidenceInterval {
            confidence_level: 950_000,
            lower_bound: 99,
            upper_bound: 101,
        },
        point_estimate: 100,
        standard_error: 1,
    };
    let stat = Statistic { mean: e, median: e, median_abs_dev: e, slope: e, std_dev: e };
    lolbench::estimates::estimates_insert(Vec::new(), "nanoseconds", stat)
}

/// Drives one plan to completion, counting how often the stubbed build and
/// measurement actually run.
fn run_to_done(
    collector: &mut Collector,
    plan: &RunPlan,
    build_result: &CollectionResult<Vec<u8>>,
    builds: &mut usize,
    measures: &mut usize,
) -> (bool, Option<String>) {
    loop {
        match collector.next_action(plan) {
            Action::Build(key) => {
                *builds += 1;
                let outcome = lolbench::collect_result::hash_result_clone(build_result);
                collector.record_build_result(key, outcome, 1);
            },
            Action::Measure(_hash, key) => {
                *measures += 1;
                collector.record_measurement(key, Ok(sample_estimates()), 2);
            },
            Action::Done(ok, hex) => return (ok, hex),
        }
    }
}

#[test]
fn caching_is_idempotent() {
    let mut collector = Collector::new("data".to_string());
    let plan = plan_for("nightly-2018-01-01");
    let mut builds = 0;
    let mut measures = 0;

    let first = run_to_done(&mut collector, &plan, &Ok(vec![0x0a, 0xff]), &mut builds, &mut measures);
    assert_eq!(first.0, true);
    assert_eq!(first.1.as_deref(), Some("aff"));
    assert_eq!(builds, 1);
    assert_eq!(measures, 1);

    let second = run_to_done(&mut collector, &plan, &Ok(vec![0x0a, 0xff]), &mut builds, &mut measures);
    assert_eq!(second.0, true);
    assert_eq!(second.1.as_deref(), Some("aff"));
    assert_eq!(builds, 1, "the second run must not build again");
    assert_eq!(measures, 1, "the second run must not measure again");
}

#[test]
fn build_failures_are_memoized() {
    let mut collector = Collector::new("data".to_string());
    let plan = plan_for("nightly-2018-01-02");
    let mut builds = 0;
    let mut measures = 0;
    let failure: CollectionResult<Vec<u8>> =
        Err(Error { kind: ErrorKind::Build("rustc exploded".to_string()) });

    let first = run_to_done(&mut collector, &plan, &failure, &mut builds, &mut measures);
    assert_eq!(first, (false, None));
    assert_eq!(builds, 1);
    assert_eq!(measures, 0);

    let second = run_to_done(&mut collector, &plan, &failure, &mut builds, &mut measures);
    assert_eq!(second, (false, None));
    assert_eq!(builds, 1, "the failure itself must be the cached outcome");
    assert_eq!(measures, 0);
}

#[test]
fn identical_binaries_share_one_measurement() {
    let mut collector = Collector::new("data".to_string());
    let p1 = plan_for("nightly-2018-01-01");
    let p2 = plan_for("nightly-2018-01-02");
    let same_binary = vec![7u8, 7, 7];
    let mut builds = 0;
    let mut measures = 0;

    run_to_done(&mut collector, &p1, &Ok(same_binary.clone()), &mut builds, &mut measures);
    assert_eq!((builds, measures), (1, 1));

    // the second toolchain still has to build, but its binary is already
    // measured: exactly one measurement entry serves both
    let second = run_to_done(&mut collector, &p2, &Ok(same_binary), &mut builds, &mut measures);
    assert_eq!(second.0, true);
    assert_eq!(builds, 2);
    assert_eq!(measures, 1, "the measurement must be shared across toolchains");
}

#[test]
fn skippable_plans_are_pruned_before_install() {
    let mut collector = Collector::new("data".to_string());
    let done_plan = plan_for("nightly-2018-01-01");
    let fresh_plan = plan_for("nightly-2018-01-03");
    let mut builds = 0;
    let mut measures = 0;
    run_to_done(&mut collector, &done_plan, &Ok(vec![1]), &mut builds, &mut measures);

    assert!(collector.plan_can_be_skipped_with_no_work(&done_plan));
    assert!(!collector.plan_can_be_skipped_with_no_work(&fresh_plan));

    let groups = vec![
        (Toolchain::from("nightly-2018-01-01"), vec![done_plan.clone()]),
        (Toolchain::from("nightly-2018-01-03"), vec![fresh_plan.clone()]),
    ];
    let needed = collector.compute_builds_needed(&groups);
    assert_eq!(needed.len(), 2);
    assert_eq!(needed[0].1.len(), 0);
    assert_eq!(needed[1].1.len(), 1);
    assert_eq!(needed[1].1[0].binary_name, "roundtrip");
}

#[test]
fn batch_summary_counts_successes_and_failures() {
    let tc = Toolchain::from("nightly-2018-01-01");
    let results = vec![
        (true, plan_for("nightly-2018-01-01"), Some("aff".to_string())),
        (false, plan_for("nightly-2018-01-01"), None),
        (true, plan_for("nightly-2018-01-01"), Some("b0".to_string())),
    ];
    let msg = Collector::batch_summary(&tc, &results);
    assert_eq!(msg, "nightly-2018-01-01: 2 ok, 1 err");
}
