use std::time::{Duration, Instant};

use rhss::cache::decimal_string;
use rhss::{FileLocationCache, StorageLocation};

/// Lets `d` of wall-clock time go by.
fn pause(d: Duration) {
    let start = Instant::now();
    while start.elapsed() < d {
        std::hint::spin_loop();
    }
}

#[test]
fn test_cache_basic() {
    let mut cache = FileLocationCache::new(60, 100);
    let path = "test.txt";

    assert_eq!(cache.get(path), None);

    cache.set(path, StorageLocation::Hot, Some(1024));
    assert_eq!(cache.get(path), Some(StorageLocation::Hot));

    cache.remove(path);
    assert_eq!(cache.get(path), None);
}

#[test]
fn test_cache_expiry() {
    let mut cache = FileLocationCache::new(1, 100);
    let path = "test.txt";

    cache.set(path, StorageLocation::Cold, None);
    assert_eq!(cache.get(path), Some(StorageLocation::Cold));

    pause(Duration::from_secs(2));
    assert_eq!(cache.get(path), None);
}

#[test]
fn test_cache_max_entries() {
    let mut cache = FileLocationCache::new(60, 2);

    cache.set("file1.txt", StorageLocation::Hot, None);
    cache.set("file2.txt", StorageLocation::Cold, None);

    pause(Duration::from_millis(10));
    cache.set("file3.txt", StorageLocation::Hot, None);

    assert_eq!(cache.get("file1.txt"), None);
    assert_eq!(cache.get("file2.txt"), Some(StorageLocation::Cold));
    assert_eq!(cache.get("file3.txt"), Some(StorageLocation::Hot));
}

#[test]
fn ttl_boundary_just_below_and_above() {
    let mut cache = FileLocationCache::new(300, 10);
    cache.set_at("a", StorageLocation::Hot, None, 1_000_000);
    assert_eq!(cache.get_at("a", 1_000_000), Some(StorageLocation::Hot));
    assert_eq!(cache.get_at("a", 1_000_000 + 299_999), Some(StorageLocation::Hot));
    assert_eq!(cache.get_at("a", 1_000_000 + 300_000), None);
    assert_eq!(cache.get_at("a", 1_000_000 + 300_001), None);
    // A reading from before the record is neither fresh nor expired.
    assert_eq!(cache.get_at("a", 999_999), None);
    assert_eq!(cache.stats_at(999_999).expired, 0);
    assert_eq!(cache.stats_at(1_300_000).expired, 1);
    assert_eq!(cache.stats_at(1_299_999).expired, 0);
}

#[test]
fn eviction_at_capacity_plus_one() {
    let mut cache = FileLocationCache::new(60, 3);
    cache.set_at("a", StorageLocation::Hot, None, 10);
    cache.set_at("b", StorageLocation::Hot, None, 5);
    cache.set_at("c", StorageLocation::Cold, None, 20);
    assert_eq!(cache.len(), 3);
    // Updating a recorded path never evicts.
    cache.set_at("a", StorageLocation::Cold, None, 30);
    assert_eq!(cache.len(), 3);
    cache.set_at("d", StorageLocation::Hot, None, 40);
    assert_eq!(cache.len(), 3);
    assert_eq!(cache.get_at("b", 40), None);
    assert_eq!(cache.get_at("a", 40), Some(StorageLocation::Cold));
    assert_eq!(cache.get_at("c", 40), Some(StorageLocation::Cold));
    assert_eq!(cache.get_at("d", 40), Some(StorageLocation::Hot));
}

#[test]
fn eviction_tie_takes_first_recorded() {
    let mut cache = FileLocationCache::new(60, 2);
    cache.set_at("x", StorageLocation::Hot, None, 7);
    cache.set_at("y", StorageLocation::Hot, None, 7);
    cache.set_at("z", StorageLocation::Hot, None, 7);
    assert_eq!(cache.get_at("x", 7), None);
    assert_eq!(cache.get_at("y", 7), Some(StorageLocation::Hot));
    assert_eq!(cache.get_at("z", 7), Some(StorageLocation::Hot));
}

#[test]
fn zero_capacity_still_records_one() {
    let mut cache = FileLocationCache::new(60, 0);
    cache.set_at("x", StorageLocation::Hot, None, 1);
    assert_eq!(cache.len(), 1);
    cache.set_at("y", StorageLocation::Cold, None, 2);
    assert_eq!(cache.len(), 1);
    assert_eq!(cache.get_at("y", 2), Some(StorageLocation::Cold));
}

#[test]
fn batch_update_skips_new_paths_when_full() {
    let mut cache = FileLocationCache::new(60, 2);
    cache.set_at("a", StorageLocation::Hot, None, 1);
    cache.batch_update_at(
        vec![
            ("b".to_string(), StorageLocation::Cold, None),
            ("c".to_string(), StorageLocation::Cold, None),
            ("a".to_string(), StorageLocation::Both, None),
        ],
        5,
    );
    assert_eq!(cache.len(), 2);
    assert_eq!(cache.get_at("a", 5), Some(StorageLocation::Both));
    assert_eq!(cache.get_at("b", 5), Some(StorageLocation::Cold));
    assert_eq!(cache.get_at("c", 5), None);
}

#[test]
fn move_location_only_from_recorded_tier() {
    let mut cache = FileLocationCache::new(60, 10);
    cache.set_at("m", StorageLocation::Hot, Some(4), 1);
    cache.move_location_at("m", StorageLocation::Cold, StorageLocation::Hot, 2);
    assert_eq!(cache.get_at("m", 2), Some(StorageLocation::Hot));
    cache.move_location_at("m", StorageLocation::Hot, StorageLocation::Cold, 3);
    assert_eq!(cache.get_at("m", 3), Some(StorageLocation::Cold));
    cache.move_location_at("absent", StorageLocation::Hot, StorageLocation::Cold, 3);
    assert_eq!(cache.len(), 1);
}

#[test]
fn stats_count_each_tier() {
    let mut cache = FileLocationCache::new(60, 10);
    cache.set_at("h", StorageLocation::Hot, None, 0);
    cache.set_at("c", StorageLocation::Cold, None, 0);
    cache.set_at("b", StorageLocation::Both, None, 0);
    cache.set_at("h2", StorageLocation::Hot, None, 50_000);
    let stats = cache.stats_at(60_000);
    assert_eq!(stats.total, 4);
    assert_eq!(stats.hot, 2);
    assert_eq!(stats.cold, 1);
    assert_eq!(stats.both, 1);
    assert_eq!(stats.expired, 3);
    assert_eq!(stats.describe(), "cache: total=4, hot=2, cold=1, both=1, expired=3");
    cache.clear();
    assert_eq!(cache.len(), 0);
    assert_eq!(cache.stats_at(0).total, 0);
}

#[test]
fn decimal_text() {
    assert_eq!(decimal_string(0), "0");
    assert_eq!(decimal_string(7), "7");
    assert_eq!(decimal_string(10), "10");
    assert_eq!(decimal_string(1234567890), "1234567890");
    assert_eq!(decimal_string(u64::MAX), "18446744073709551615");
}
