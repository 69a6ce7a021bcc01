//! Toolchain enumeration over date ranges.

use lolbench::date::Date;
use lolbench::plan::ToolchainSpec;
use lolbench::toolchain::Toolchain;

fn expected_range() -> Vec<&'static str> {
    vec![
        "nightly-2015-05-15",
        "nightly-2015-05-16",
        "nightly-2015-05-17",
        "nightly-2015-05-18",
        "nightly-2015-05-19",
        "nightly-2015-05-20",
        "nightly-2015-05-21",
        "nightly-2015-05-22",
        "nightly-2015-05-23",
        "nightly-2015-05-24",
        "nightly-2015-05-25",
        "nightly-2015-05-26",
        "nightly-2015-05-27",
        "nightly-2015-05-28",
        "nightly-2015-05-29",
        "nightly-2015-05-30",
        "nightly-2015-05-31",
        "nightly-2015-06-01",
        "nightly-2015-06-02",
    ]
}

#[test]
fn lib_toolchain_date_range() {
    let spec = ToolchainSpec::Range(Date::from_ymd(2015, 5, 15), Date::from_ymd(2015, 6, 2));
    let got = spec.all_of_em();
    let expected: Vec<Toolchain> = expected_range().into_iter().map(Toolchain::from).collect();
    assert_eq!(got, expected);
}

#[test]
fn plan_toolchain_date_range() {
    let spec = ToolchainSpec::Range(Date::from_ymd(2015, 5, 15), Date::from_ymd(2015, 6, 2));
    let got = spec.all_of_em();
    let names: Vec<String> = got.iter().map(|t| t.as_str().to_string()).collect();
    assert_eq!(names, expected_range());
}

#[test]
fn planner_toolchain_date_range() {
    let spec = ToolchainSpec::Range(Date::from_ymd(2015, 5, 15), Date::from_ymd(2015, 6, 2));
    let got = spec.all_of_em();
    assert_eq!(got.len(), 19);
    assert_eq!(got[0].as_str(), "nightly-2015-05-15");
    assert_eq!(got[18].as_str(), "nightly-2015-06-02");
    let expected: Vec<Toolchain> = expected_range().into_iter().map(Toolchain::from).collect();
    assert_eq!(got, expected);
}

#[test]
fn toolchain_single() {
    let spec = ToolchainSpec::Single("stable".to_string());
    let got = spec.all_of_em();
    assert_eq!(got.len(), 1);
    assert_eq!(got[0].as_str(), "stable");
}

#[test]
fn date_succ_handles_month_ends() {
    assert_eq!(Date::from_ymd(2016, 2, 28).succ(), Date::from_ymd(2016, 2, 29));
    assert_eq!(Date::from_ymd(2015, 2, 28).succ(), Date::from_ymd(2015, 3, 1));
    assert_eq!(Date::from_ymd(2015, 12, 31).succ(), Date::from_ymd(2016, 1, 1));
    assert_eq!(Date::from_ymd(1900, 2, 28).succ(), Date::from_ymd(1900, 3, 1));
    assert_eq!(Date::from_ymd(2000, 2, 28).succ(), Date::from_ymd(2000, 2, 29));
}

#[test]
fn date_iso_pads() {
    assert_eq!(Date::from_ymd(2015, 5, 5).iso(), "2015-05-05");
    assert_eq!(Date::from_ymd(985, 11, 30).iso(), "0985-11-30");
}

#[test]
fn toolchain_target_dir() {
    let tc = Toolchain::from("nightly-2018-01-01");
    assert_eq!(tc.target_dir(), "/tmp/target-nightly-2018-01-01");
}
