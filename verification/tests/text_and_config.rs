//! Text rendering, configuration, paths and the smaller pieces.

use lolbench::benchmark::Benchmark;
use lolbench::cpu_shield::{shield_reset_args, shielded_invocation, ShieldSpec};
use lolbench::fixed::fixed_display;
use lolbench::paths::{manifest_candidates, path_stem};
use lolbench::run_plan::RunPlan;
use lolbench::textfmt::{bytes_hex, bytes_hex_short, dec_u64, dec_u64_pad, str_contains};
use lolbench::toolchain::{classify_install_output, InstallOutcome, Toolchain};
use lolbench::CriterionConfig;

#[test]
fn decimal_rendering() {
    assert_eq!(dec_u64(0), "0");
    assert_eq!(dec_u64(1234), "1234");
    assert_eq!(dec_u64_pad(7, 4), "0007");
    assert_eq!(dec_u64_pad(12345, 4), "12345");
}

#[test]
fn hex_rendering() {
    assert_eq!(bytes_hex(&vec![0x0a, 0xff]), "0aff");
    assert_eq!(bytes_hex_short(&vec![0x0a, 0xff]), "aff");
    assert_eq!(bytes_hex_short(&vec![0x00, 0x10]), "010");
    assert_eq!(bytes_hex(&Vec::new()), "");
}

#[test]
fn fixed_point_rendering() {
    assert_eq!(fixed_display(0), "0");
    assert_eq!(fixed_display(950_000), "0.950000");
    assert_eq!(fixed_display(5_000_000), "5");
    assert_eq!(fixed_display(-1_500_000), "-1.500000");
}

#[test]
fn substring_search() {
    assert!(str_contains("error: no release found for date", "no release found"));
    assert!(!str_contains("disk full", "no release found"));
    assert!(str_contains("abc", ""));
}

#[test]
fn install_output_classification() {
    assert_eq!(classify_install_output(true, ""), InstallOutcome::Installed);
    assert_eq!(
        classify_install_output(false, "error: no release found for nightly-2018-01-01"),
        InstallOutcome::NoSuchRelease
    );
    assert_eq!(classify_install_output(false, "disk full"), InstallOutcome::Failed);
}

#[test]
fn benchmark_names_are_stripped() {
    let b = Benchmark::new("ser de", "round\ttrip", "benches/serde/src/bin/roundtrip.rs");
    assert_eq!(b.crate_name, "serde");
    assert_eq!(b.name, "roundtrip");
    assert_eq!(b.key(), "serde::roundtrip");
}

#[test]
fn criterion_config_env_block() {
    let cfg = CriterionConfig {
        sample_size: 5,
        warm_up_time_ms: 1,
        measurement_time_ms: 500,
        nresamples: 2,
        noise_threshold: 0,
        confidence_level: 950_000,
        significance_level: 50_000,
    };
    let envs = cfg.envs();
    assert_eq!(envs.len(), 7);
    assert_eq!(envs[0], ("lolbench_sample_size".to_string(), "5".to_string()));
    assert_eq!(envs[4], ("lolbench_noise_threshold".to_string(), "0".to_string()));
    assert_eq!(envs[5], ("lolbench_confidence_level".to_string(), "0.950000".to_string()));
    assert_eq!(envs[6], ("lolbench_significance_level".to_string(), "0.050000".to_string()));
}

#[test]
fn shield_command_lines() {
    let spec = ShieldSpec::new("0-3".to_string(), true).unwrap();
    let create = spec.create_args();
    assert_eq!(create, vec!["cset", "shield", "--cpu=0-3", "--kthread=on"]);
    let quiet = ShieldSpec::new("1".to_string(), false).unwrap();
    assert_eq!(quiet.create_args(), vec!["cset", "shield", "--cpu=1"]);
    assert_eq!(shield_reset_args(), vec!["cset", "shield", "--reset"]);
    assert_eq!(shielded_invocation("cargo"), vec!["cset", "sh", "cargo"]);
}

#[test]
fn path_stems_and_manifest_candidates() {
    assert_eq!(path_stem("benches/serde/src/bin/roundtrip.rs"), "roundtrip");
    assert_eq!(path_stem("roundtrip.rs"), "roundtrip");
    assert_eq!(path_stem(".hidden"), ".hidden");
    let candidates = manifest_candidates("a/b/c.rs");
    assert_eq!(
        candidates,
        vec!["a/b/c.rs/Cargo.toml", "a/b/Cargo.toml", "a/Cargo.toml", "Cargo.toml"]
    );
}

#[test]
fn run_plan_command_lines() {
    let plan = RunPlan::new(
        Benchmark::new("serde", "roundtrip", "benches/serde/src/bin/roundtrip.rs"),
        None,
        None,
        Some(Toolchain::from("nightly-2018-01-01")),
        "benches/serde/src/bin/roundtrip.rs".to_string(),
        "benches/serde/Cargo.toml".to_string(),
    );
    assert_eq!(plan.binary_name, "roundtrip");
    assert_eq!(
        plan.build_args(),
        vec![
            "+nightly-2018-01-01",
            "build",
            "--release",
            "--manifest-path",
            "benches/serde/Cargo.toml",
            "--bin",
            "roundtrip",
        ]
    );
    assert_eq!(plan.exec_args()[1], "run");
    assert_eq!(
        plan.binary_path(),
        "/tmp/target-nightly-2018-01-01/release/roundtrip"
    );
    assert_eq!(
        plan.runtime_estimates_path(),
        "/tmp/target-nightly-2018-01-01/criterion/serde::roundtrip/new/estimates.json"
    );
    assert_eq!(
        plan.metrics_estimates_path(),
        "/tmp/target-nightly-2018-01-01/criterion/serde::roundtrip/new/metrics-estimates.json"
    );
    let env = plan.exec_env();
    assert_eq!(env[0], ("CARGO_TARGET_DIR".to_string(), "/tmp/target-nightly-2018-01-01".to_string()));
    assert_eq!(plan.display_name(), "serde::roundtrip@anonymous");
}
