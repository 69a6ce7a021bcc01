//! Plan building, estimate merging, the registry and rebalancing.

use lolbench::benchmark::Benchmark;
use lolbench::date::Date;
use lolbench::estimates::{
    estimates_get, estimates_insert, merge_estimates, ConfidenceInterval, Estimate, Statistic,
};
use lolbench::plan::{BenchFilter, BenchOpts, Plans, ResolvedBench, ToolchainSpec};
use lolbench::registry::{
    get_benches, most_covered_toolchains_runtimes, rebalance_assignments, Registry,
};
use lolbench::stats::{mean_fx, std_dev_fx};
use lolbench::storage::Store;
use lolbench::toolchain::Toolchain;

fn statistic(v: i64) -> Statistic {
    let e = Estimate {
        confidence_interval: ConfidenceInterval {
            confidence_level: 950_000,
            lower_bound: v,
            upper_bound: v,
        },
        point_estimate: v,
        standard_error: 0,
    };
    Statistic { mean: e, median: e, median_abs_dev: e, slope: e, std_dev: e }
}

fn bench(crate_name: &str, name: &str, runner: Option<&str>) -> Benchmark {
    let mut b = Benchmark::new(crate_name, name, "benches/x/src/bin/y.rs");
    if let Some(r) = runner {
        b.set_runner(r);
    }
    b
}

#[test]
fn merge_prefers_counter_tables_but_adds_nanoseconds() {
    let counters = estimates_insert(Vec::new(), "instructions", statistic(500));
    let merged = merge_estimates(statistic(100), &counters);
    assert_eq!(estimates_get(&merged, "nanoseconds").unwrap().median.point_estimate, 100);
    assert_eq!(estimates_get(&merged, "instructions").unwrap().median.point_estimate, 500);

    let clashing = estimates_insert(Vec::new(), "nanoseconds", statistic(77));
    let merged = merge_estimates(statistic(100), &clashing);
    assert_eq!(estimates_get(&merged, "nanoseconds").unwrap().median.point_estimate, 77);
}

#[test]
fn sample_moments_have_exact_values() {
    assert_eq!(mean_fx(&vec![1, 2, 3, 4]), 2);
    // the classic textbook sample: mean 5, variance 32/7 -> 4, sqrt -> 2
    assert_eq!(std_dev_fx(&vec![2, 4, 4, 4, 5, 5, 7, 9]), 2);
}

#[test]
fn plans_cross_filtered_benchmarks_with_toolchains() {
    let benches = vec![
        ResolvedBench {
            benchmark: bench("serde", "roundtrip", Some("runner-a")),
            source_path: "benches/serde/src/bin/roundtrip.rs".to_string(),
            manifest_path: "benches/serde/Cargo.toml".to_string(),
        },
        ResolvedBench {
            benchmark: bench("rayon", "join", Some("runner-b")),
            source_path: "benches/rayon/src/bin/join.rs".to_string(),
            manifest_path: "benches/rayon/Cargo.toml".to_string(),
        },
    ];
    let opts = BenchOpts::unshielded(
        BenchFilter::Runner("runner-a".to_string()),
        ToolchainSpec::Range(Date::from_ymd(2018, 1, 1), Date::from_ymd(2018, 1, 3)),
    );
    let plans = Plans::new(&benches, &opts, 9);
    assert_eq!(plans.generated_at, 9);
    assert_eq!(plans.plans.len(), 3);
    for p in &plans.plans {
        assert_eq!(p.benchmark.key(), "serde::roundtrip");
        assert!(p.shield.is_none());
    }

    let all = BenchOpts::unshielded(
        BenchFilter::All,
        ToolchainSpec::Single("stable".to_string()),
    );
    assert_eq!(Plans::new(&benches, &all, 9).plans.len(), 2);
}

#[test]
fn registry_update_takes_new_runner_assignments() {
    let mut registry = Registry { workers: vec!["runner-a".to_string()], benchmarks: Vec::new() };
    registry.update(&bench("serde", "roundtrip", None));
    assert_eq!(registry.benchmarks.len(), 1);
    assert!(registry.benchmarks[0].1.runner.is_none());

    registry.update(&bench("serde", "roundtrip", Some("runner-a")));
    assert_eq!(registry.benchmarks.len(), 1);
    assert_eq!(registry.benchmarks[0].1.runner.as_deref(), Some("runner-a"));

    // an update without an assignment keeps the old one
    registry.update(&bench("serde", "roundtrip", None));
    assert_eq!(registry.benchmarks[0].1.runner.as_deref(), Some("runner-a"));
}

#[test]
fn get_benches_filters_by_runner() {
    let registry = Registry {
        workers: vec!["runner-a".to_string(), "runner-b".to_string()],
        benchmarks: vec![
            ("serde::roundtrip".to_string(), bench("serde", "roundtrip", Some("runner-a"))),
            ("rayon::join".to_string(), bench("rayon", "join", Some("runner-b"))),
            ("regex::compile".to_string(), bench("regex", "compile", None)),
        ],
    };
    assert_eq!(get_benches(&registry, None).len(), 3);
    let only_a = get_benches(&registry, Some("runner-a"));
    assert_eq!(only_a.len(), 1);
    assert_eq!(only_a[0].key(), "serde::roundtrip");
}

#[test]
fn rebalance_assigns_unassigned_benchmarks_to_runners() {
    let registry = Registry {
        workers: vec!["runner-a".to_string(), "runner-b".to_string()],
        benchmarks: vec![
            ("serde::roundtrip".to_string(), bench("serde", "roundtrip", Some("runner-a"))),
            ("rayon::join".to_string(), bench("rayon", "join", None)),
            ("regex::compile".to_string(), bench("regex", "compile", None)),
        ],
    };
    let runtimes = vec![
        (1_000_000_000, "serde::roundtrip".to_string()),
        (800_000_000, "rayon::join".to_string()),
        (100_000_000, "regex::compile".to_string()),
    ];
    let groups = rebalance_assignments(&registry, &runtimes);
    let total: usize = groups.iter().map(|g| g.1.len()).sum();
    assert_eq!(total, 2, "only the unassigned benchmarks move");
    for g in &groups {
        assert!(registry.workers.contains(&g.0));
        assert!(!g.1.contains(&"serde::roundtrip".to_string()));
    }
}

#[test]
fn the_most_covered_toolchain_orders_runtimes_heaviest_first() {
    let est = |v: i64| estimates_insert(Vec::new(), "nanoseconds", statistic(v));
    let everywhere = Toolchain::from("nightly-2018-01-02");
    let rare = Toolchain::from("nightly-2018-01-01");
    let all = vec![
        ("serde::roundtrip".to_string(), vec![
            (Some(rare.clone()), vec![1u8], est(1)),
            (Some(everywhere.clone()), vec![2u8], est(300)),
        ]),
        ("rayon::join".to_string(), vec![(Some(everywhere.clone()), vec![3u8], est(900))]),
        ("regex::compile".to_string(), vec![(Some(everywhere.clone()), vec![4u8], est(100))]),
    ];
    let runtimes = most_covered_toolchains_runtimes(&all);
    assert_eq!(runtimes.len(), 3);
    assert_eq!(runtimes[0], (900, "rayon::join".to_string()));
    assert_eq!(runtimes[1], (300, "serde::roundtrip".to_string()));
    assert_eq!(runtimes[2], (100, "regex::compile".to_string()));
}

#[test]
fn stored_estimates_join_by_binary_hash() {
    let mut store = Store::new("data".to_string());
    let ikey = lolbench::index::Key {
        benchmark_key: "serde::roundtrip".to_string(),
        toolchain: Some(Toolchain::from("nightly-2018-01-01")),
    };
    store.set_index(ikey, Ok(vec![5, 5]), 1);
    let mkey = lolbench::measurement::Key::new(vec![5, 5], None, None);
    let table = estimates_insert(Vec::new(), "nanoseconds", statistic(123));
    store.set_measurement(mkey, Ok(table), 2);

    let all = store.all_stored_estimates();
    assert_eq!(all.len(), 1);
    assert_eq!(all[0].0, "serde::roundtrip");
    assert_eq!(all[0].1.len(), 1);
    let (tc, hash, est) = &all[0].1[0];
    assert_eq!(tc.as_ref().unwrap().as_str(), "nightly-2018-01-01");
    assert_eq!(hash, &vec![5, 5]);
    assert_eq!(estimates_get(est, "nanoseconds").unwrap().median.point_estimate, 123);
}
