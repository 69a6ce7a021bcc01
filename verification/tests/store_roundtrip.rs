//! Round-trip storage and key-derived filenames.

use lolbench::collect_result::{Error, ErrorKind};
use lolbench::estimates::{ConfidenceInterval, Estimate, Statistic};
use lolbench::index;
use lolbench::measurement;
use lolbench::storage::{Store, StorageKey};
use lolbench::toolchain::Toolchain;
use sha2::Digest;

fn sample_statistic(v: i64) -> Statistic {
    let e = Estimate {
        confidence_interval: ConfidenceInterval {
            confidence_level: 950_000,
            lower_bound: v - 1,
            upper_bound: v + 1,
        },
        point_estimate: v,
        standard_error: 1,
    };
    Statistic { mean: e, median: e, median_abs_dev: e, slope: e, std_dev: e }
}

#[test]
fn set_then_get_returns_the_value() {
    let mut store = Store::new("data".to_string());
    let key = index::Key {
        benchmark_key: "serde::roundtrip".to_string(),
        toolchain: Some(Toolchain::from("nightly-2018-01-01")),
    };
    assert!(store.get_index(&key).is_none());
    store.set_index(key.clone(), Ok(vec![1, 2, 3]), 7);
    match store.get_index(&key) {
        Some(Ok(hash)) => assert_eq!(hash, &vec![1, 2, 3]),
        other => panic!("unexpected lookup outcome: {:?}", other),
    }
}

#[test]
fn set_overwrites_in_place() {
    let mut store = Store::new("data".to_string());
    let key = index::Key { benchmark_key: "a::b".to_string(), toolchain: None };
    store.set_index(key.clone(), Ok(vec![1]), 1);
    store.set_index(key.clone(), Ok(vec![2]), 2);
    match store.get_index(&key) {
        Some(Ok(hash)) => assert_eq!(hash, &vec![2]),
        other => panic!("unexpected lookup outcome: {:?}", other),
    }
}

#[test]
fn distinct_keys_do_not_collide() {
    let mut store = Store::new("data".to_string());
    let k1 = index::Key {
        benchmark_key: "a::b".to_string(),
        toolchain: Some(Toolchain::from("stable")),
    };
    let k2 = index::Key {
        benchmark_key: "a::b".to_string(),
        toolchain: Some(Toolchain::from("beta")),
    };
    store.set_index(k1.clone(), Ok(vec![1]), 1);
    store.set_index(k2.clone(), Ok(vec![2]), 1);
    match store.get_index(&k1) {
        Some(Ok(hash)) => assert_eq!(hash, &vec![1]),
        other => panic!("unexpected lookup outcome: {:?}", other),
    }
    match store.get_index(&k2) {
        Some(Ok(hash)) => assert_eq!(hash, &vec![2]),
        other => panic!("unexpected lookup outcome: {:?}", other),
    }
}

#[test]
fn measurement_roundtrip_with_failure_value() {
    let mut store = Store::new("data".to_string());
    let key = measurement::Key::new(vec![9, 9], Some("runner-a".to_string()), None);
    let failure = Error { kind: ErrorKind::Run("binary exited 1".to_string()) };
    store.set_measurement(key.clone(), Err(failure), 3);
    match store.get_measurement(&key) {
        Some(Err(e)) => match &e.kind {
            ErrorKind::Run(msg) => assert_eq!(msg, "binary exited 1"),
            other => panic!("wrong kind: {:?}", other),
        },
        other => panic!("unexpected lookup outcome: {:?}", other),
    }
}

#[test]
fn measurement_roundtrip_with_estimates() {
    let mut store = Store::new("data".to_string());
    let key = measurement::Key::new(vec![4, 5, 6], None, None);
    let mut table = Vec::new();
    table = lolbench::estimates::estimates_insert(table, "nanoseconds", sample_statistic(100));
    store.set_measurement(key.clone(), Ok(table), 3);
    match store.get_measurement(&key) {
        Some(Ok(t)) => {
            let found = lolbench::estimates::estimates_get(t, "nanoseconds").unwrap();
            assert_eq!(found.median.point_estimate, 100);
        },
        other => panic!("unexpected lookup outcome: {:?}", other),
    }
}

#[test]
fn index_basename_is_the_slug_of_the_pair() {
    let key = index::Key {
        benchmark_key: "serde::roundtrip".to_string(),
        toolchain: Some(Toolchain::from("nightly-2018-01-01")),
    };
    // slug::slugify("serde::roundtrip-nightly-2018-01-01")
    assert_eq!(key.basename(), "serde-roundtrip-nightly-2018-01-01");
    let bare = index::Key { benchmark_key: "a::b".to_string(), toolchain: None };
    assert_eq!(bare.basename(), "a-b-current-toolchain");
}

#[test]
fn measurement_basename_is_the_digest_of_the_encoding() {
    let key = measurement::Key::new(vec![1, 2, 3], Some("runner-a".to_string()), None);
    let digest = sha2::Sha256::digest(key.encoded());
    let expected: String = digest.iter().map(|b| format!("{:02x}", b)).collect();
    assert_eq!(key.basename(), expected);
    assert_eq!(key.basename().len(), 64);
}

#[test]
fn freshly_computed_entries_persist_and_existing_ones_do_not() {
    let mut store = Store::new("data".to_string());
    let key = index::Key { benchmark_key: "a::b".to_string(), toolchain: None };
    let fresh = lolbench::storage::Entry::New(key.clone(), Ok(vec![1, 2]));
    let path = store.ensure_index_persisted(fresh, 5);
    assert_eq!(path.as_deref(), Some("data/run-plans/a-b-current-toolchain.json"));

    let found = lolbench::collect_result::hash_result_clone(store.get_index(&key).unwrap());
    let existing = lolbench::storage::Entry::Existing(found);
    match existing.value() {
        Ok(h) => assert_eq!(h, &vec![1, 2]),
        Err(e) => panic!("unexpected failure value: {:?}", e),
    }
    assert!(store.ensure_index_persisted(existing, 6).is_none());

    let mkey = measurement::Key::new(vec![1, 2], None, None);
    let table = lolbench::estimates::estimates_insert(Vec::new(), "nanoseconds", sample_statistic(9));
    let cloned = lolbench::collect_result::estimates_result_clone(&Ok(table));
    assert!(store
        .ensure_measurement_persisted(lolbench::storage::Entry::New(mkey.clone(), cloned), 7)
        .is_some());
    assert!(store.get_measurement(&mkey).is_some());
}

#[test]
fn abs_path_layout() {
    let key = index::Key { benchmark_key: "a::b".to_string(), toolchain: None };
    assert_eq!(key.abs_path("/srv/data"), "/srv/data/run-plans/a-b-current-toolchain.json");
}
