use ipa_navigator_kokoro::cache::{SynthesisCache, CACHE_TTL_MS};
use ipa_navigator_kokoro::error::TtsError;

fn key(s: &str) -> String {
    s.to_string()
}

#[test]
fn capacity_two_keeps_the_last_two() {
    let mut c = SynthesisCache::new(2, CACHE_TTL_MS);
    c.insert(key("one"), vec![1], 0);
    c.insert(key("two"), vec![2], 1);
    c.insert(key("three"), vec![3], 2);
    assert_eq!(c.len(), 2);
    assert!(!c.contains(&key("one")));
    assert!(c.contains(&key("two")));
    assert!(c.contains(&key("three")));
}

#[test]
fn a_hit_protects_from_eviction() {
    let mut c = SynthesisCache::new(2, CACHE_TTL_MS);
    c.insert(key("one"), vec![1], 0);
    c.insert(key("two"), vec![2], 1);
    assert_eq!(c.lookup(&key("one"), 5), Some(vec![1]));
    c.insert(key("three"), vec![3], 6);
    assert!(c.contains(&key("one")));
    assert!(!c.contains(&key("two")));
}

#[test]
fn expired_entry_is_a_miss_and_regenerated() {
    let mut c = SynthesisCache::new(50, 50);
    c.insert(key("k"), vec![7, 8], 1000);
    assert_eq!(c.lookup(&key("k"), 1049), Some(vec![7, 8]));
    assert_eq!(c.lookup(&key("k"), 1050), None);
    assert!(!c.contains(&key("k")));
    c.insert(key("k"), vec![9], 1060);
    assert_eq!(c.inserted_at(&key("k")), Some(1060));
    assert_eq!(c.lookup(&key("k"), 1061), Some(vec![9]));
}

#[test]
fn clock_before_insertion_counts_as_fresh() {
    let mut c = SynthesisCache::new(1, 10);
    c.insert(key("k"), vec![1], 100);
    assert_eq!(c.lookup(&key("k"), 50), Some(vec![1]));
}

#[test]
fn same_key_replaces_entry() {
    let mut c = SynthesisCache::default();
    assert_eq!(c.len(), 0);
    c.insert(key("k"), vec![1], 0);
    c.insert(key("k"), vec![2], 3);
    assert_eq!(c.len(), 1);
    assert_eq!(c.inserted_at(&key("k")), Some(3));
    assert_eq!(c.lookup(&key("k"), 4), Some(vec![2]));
    assert_eq!(c.lookup(&key("missing"), 4), None);
    assert_eq!(c.inserted_at(&key("missing")), None);
}

#[test]
fn only_successful_results_are_stored() {
    let mut c = SynthesisCache::new(4, CACHE_TTL_MS);
    let failed = c.store_result(key("a"), Err(TtsError::InferenceError("boom".to_string())), 0);
    assert!(matches!(failed, Err(TtsError::InferenceError(_))));
    assert_eq!(c.len(), 0);
    let ok = c.store_result(key("a"), Ok(vec![1, 2, 3]), 10);
    assert_eq!(ok.ok(), Some(vec![1, 2, 3]));
    assert_eq!(c.inserted_at(&key("a")), Some(10));
    assert_eq!(c.lookup(&key("a"), 11), Some(vec![1, 2, 3]));
}
