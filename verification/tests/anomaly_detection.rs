//! The anomaly detector over fixed-point history.

use lolbench::analysis::{
    calculate_means, calculate_std_devs, coalesce_timings, normalized_against_first, Analysis,
    AnomalyScore, MetricData, RuntimeMetrics, TimingRecord,
};
use lolbench::estimates::{ConfidenceInterval, Estimate, Estimates, Statistic};
use lolbench::fixed::SCALE;
use lolbench::toolchain::Toolchain;

const METRIC_NAMES: [&str; 9] = [
    "nanoseconds",
    "instructions",
    "cpu-cycles",
    "context-switches",
    "cpu-clock",
    "branch-instructions",
    "branch-misses",
    "cache-misses",
    "cache-references",
];

fn statistic(v: i64) -> Statistic {
    let e = Estimate {
        confidence_interval: ConfidenceInterval {
            confidence_level: 950_000,
            lower_bound: v,
            upper_bound: v,
        },
        point_estimate: v,
        standard_error: 0,
    };
    Statistic { mean: e, median: e, median_abs_dev: e, slope: e, std_dev: e }
}

fn full_measure(v: i64) -> Estimates {
    let mut table = Vec::new();
    for name in METRIC_NAMES.iter() {
        table = lolbench::estimates::estimates_insert(table, name, statistic(v));
    }
    table
}

/// The nanosecond medians of the documented scenario, scaled.
fn scenario_medians() -> Vec<i64> {
    vec![100, 102, 99, 101, 98, 103, 100, 97, 104, 99, 101, 5000]
        .into_iter()
        .map(|v: i64| v * SCALE)
        .collect()
}

#[test]
fn scores_are_absent_below_the_sample_threshold() {
    let medians = scenario_medians();
    for upto in 0..10 {
        let prev: Vec<i64> = medians[..upto].to_vec();
        assert!(
            AnomalyScore::new(medians[upto], &prev).is_none(),
            "point {} must have no score",
            upto + 1
        );
    }
}

#[test]
fn scores_appear_at_the_sample_threshold() {
    let medians = scenario_medians();
    let prev: Vec<i64> = medians[..10].to_vec();
    assert!(AnomalyScore::new(medians[10], &prev).is_some());
}

#[test]
fn the_regression_point_is_of_interest() {
    let medians = scenario_medians();
    let prev: Vec<i64> = medians[..11].to_vec();
    let score = AnomalyScore::new(medians[11], &prev).unwrap();
    assert!(
        score.stddev_from_mean > 2 * SCALE,
        "stddev_from_mean = {}",
        score.stddev_from_mean
    );
    assert!(score.kde_estimate < 10 * SCALE, "kde_estimate = {}", score.kde_estimate);
    assert!(score.is_of_interest());
}

#[test]
fn an_ordinary_point_is_not_of_interest() {
    let medians = scenario_medians();
    let prev: Vec<i64> = medians[..11].to_vec();
    let score = AnomalyScore::new(101 * SCALE, &prev).unwrap();
    assert!(!score.is_of_interest(), "score = {:?}", score);
}

#[test]
fn first_record_normalizes_to_ones() {
    let measure = full_measure(100 * SCALE);
    let record = TimingRecord::new(
        &vec![1, 2],
        &vec![Toolchain::from("nightly-2018-01-01")],
        &measure,
        &Vec::new(),
    );
    assert_eq!(record.normalized_metrics, RuntimeMetrics::ones());
    assert_eq!(record.binary_hash, "12");
    assert!(record.anomaly_index.is_none());
}

#[test]
fn later_records_normalize_against_the_first() {
    let first = TimingRecord::new(
        &vec![1],
        &vec![Toolchain::from("a")],
        &full_measure(100 * SCALE),
        &Vec::new(),
    );
    let second = TimingRecord::new(
        &vec![2],
        &vec![Toolchain::from("b")],
        &full_measure(200 * SCALE),
        &vec![first],
    );
    // (200 + 1) / (100 + 1) in fixed point, floored
    let expected = (201 * SCALE as i128 * SCALE as i128 / (101 * SCALE as i128)) as i64;
    assert_eq!(second.normalized_metrics.nanoseconds.median, expected);
    assert_eq!(expected, 1_990_099);
}

#[test]
fn identical_metrics_normalize_to_exactly_one() {
    let base = MetricData { median: 100 * SCALE, lower_bound: 99 * SCALE, upper_bound: 101 * SCALE };
    let normalized = base.normalized_against(&base);
    assert_eq!(normalized.median, SCALE);
    assert_eq!(normalized.lower_bound, SCALE);
    assert_eq!(normalized.upper_bound, SCALE);
}

#[test]
fn consecutive_equal_hashes_coalesce() {
    let history = vec![
        (Toolchain::from("nightly-2018-01-01"), vec![0xaa], full_measure(100 * SCALE)),
        (Toolchain::from("nightly-2018-01-02"), vec![0xaa], full_measure(100 * SCALE)),
        (Toolchain::from("nightly-2018-01-03"), vec![0xbb], full_measure(105 * SCALE)),
    ];
    let timings = coalesce_timings(&history);
    assert_eq!(timings.len(), 2);
    assert_eq!(timings[0].binary_hash, "aa");
    assert_eq!(timings[0].toolchains.len(), 2);
    assert_eq!(timings[1].binary_hash, "bb");
    assert_eq!(timings[1].toolchains.len(), 1);
    assert_eq!(timings[0].normalized_metrics, RuntimeMetrics::ones());
}

#[test]
fn log_and_exp_have_exact_fixed_point_values() {
    // ln(1 + 1) is one halving and an empty series: exactly the ln-2 constant
    assert_eq!(lolbench::stats::ln_1p_fx(1_000_000), 693_147);
    assert_eq!(lolbench::stats::ln_1p_fx(0), 0);
    assert_eq!(lolbench::stats::exp_neg_fx(0), 1_000_000);
    assert_eq!(lolbench::stats::exp_neg_fx(30_000_000), 0);
}

#[test]
fn series_normalize_against_their_first_value() {
    assert_eq!(normalized_against_first(&vec![4, 2, 8]), vec![1_000_000, 500_000, 2_000_000]);
}

#[test]
fn series_means_have_exact_values() {
    let medians = scenario_medians();
    let mut history = Vec::new();
    for (i, m) in medians.iter().enumerate() {
        let name = format!("nightly-2018-01-{:02}", i + 1);
        history.push((Toolchain::from(&name), vec![i as u8], full_measure(*m)));
    }
    let timings = coalesce_timings(&history);
    let means = calculate_means(&timings);
    // sum of the medians is 6104 units over 12 records
    assert_eq!(means.nanoseconds, 6104 * SCALE / 12);
    let std_devs = calculate_std_devs(&timings, &means);
    assert!(std_devs.nanoseconds > 1000 * SCALE, "std dev = {}", std_devs.nanoseconds);
}

#[test]
fn analysis_groups_regressions_by_first_toolchain() {
    let medians = scenario_medians();
    let mut history = Vec::new();
    for (i, m) in medians.iter().enumerate() {
        let name = format!("nightly-2018-01-{:02}", i + 1);
        history.push((Toolchain::from(&name), vec![i as u8], full_measure(*m)));
    }
    let labelled: Vec<(String, TimingRecord)> = coalesce_timings(&history)
        .into_iter()
        .map(|t| ("serde::roundtrip".to_string(), t))
        .collect();
    let analysis = Analysis::new(&labelled);
    assert_eq!(analysis.anomalous_timings.len(), 1);
    let (toolchain, entries) = &analysis.anomalous_timings[0];
    assert_eq!(toolchain.as_str(), "nightly-2018-01-12");
    assert_eq!(entries.len(), 1);
    assert_eq!(entries[0].bench_fn, "serde::roundtrip");
    assert!(entries[0].index.nanoseconds.is_of_interest());
}

#[test]
fn analysis_orders_groups_most_recent_first() {
    // two regressions in a row: each is anomalous against its own history
    let mut medians = scenario_medians();
    medians.push(9000 * SCALE);
    let mut history = Vec::new();
    for (i, m) in medians.iter().enumerate() {
        let name = format!("nightly-2018-01-{:02}", i + 1);
        history.push((Toolchain::from(&name), vec![i as u8], full_measure(*m)));
    }
    let labelled: Vec<(String, TimingRecord)> = coalesce_timings(&history)
        .into_iter()
        .map(|t| ("serde::roundtrip".to_string(), t))
        .collect();
    let analysis = Analysis::new(&labelled);
    assert_eq!(analysis.anomalous_timings.len(), 2);
    assert_eq!(analysis.anomalous_timings[0].0.as_str(), "nightly-2018-01-13");
    assert_eq!(analysis.anomalous_timings[1].0.as_str(), "nightly-2018-01-12");
}

#[test]
fn full_scenario_flags_only_the_regression() {
    let medians = scenario_medians();
    let mut history = Vec::new();
    for (i, m) in medians.iter().enumerate() {
        let name = format!("nightly-2018-01-{:02}", i + 1);
        history.push((Toolchain::from(&name), vec![i as u8], full_measure(*m)));
    }
    let timings = coalesce_timings(&history);
    assert_eq!(timings.len(), 12);
    for (i, t) in timings.iter().enumerate() {
        assert_eq!(t.anomaly_index.is_some(), i >= 10, "record {}", i);
    }
    let last = timings[11].anomaly_index.unwrap();
    assert!(last.nanoseconds.is_of_interest());
    let eleventh = timings[10].anomaly_index.unwrap();
    assert!(!eleventh.nanoseconds.is_of_interest());
}
