use industry_vis::cache::{CacheConfig, QueryCache};
use industry_vis::fingerprint::{processing_signature, CacheKey};
use industry_vis::models::{
    DataProcessingConfig, HistoryRecord, OutlierRemovalConfig, ResampleConfig, SmoothingConfig,
};

fn record(date_time: &str, tag: &str, value: f64) -> HistoryRecord {
    HistoryRecord::new(date_time.to_string(), tag.to_string(), value.to_bits(), "Good".to_string())
}

fn day_key(day: usize) -> CacheKey {
    CacheKey::new("History", &format!("2024-01-0{}", day), "2024-01-10", None, None)
}

#[test]
fn test_cache_key_creation() {
    let key1 = CacheKey::new(
        "History",
        "2024-01-01",
        "2024-01-02",
        Some(&["tag1".to_string(), "tag2".to_string()]),
        None,
    );
    let key2 = CacheKey::new(
        "History",
        "2024-01-01",
        "2024-01-02",
        Some(&["tag2".to_string(), "tag1".to_string()]),
        None,
    );
    assert_eq!(key1, key2);
}

#[test]
fn test_cache_key_different_configs() {
    let config1 = DataProcessingConfig {
        outlier_removal: OutlierRemovalConfig { enabled: true, method: "3sigma".to_string() },
        resample: ResampleConfig::default(),
        smoothing: SmoothingConfig::default(),
    };
    let config2 = DataProcessingConfig {
        outlier_removal: OutlierRemovalConfig { enabled: false, method: "3sigma".to_string() },
        resample: ResampleConfig::default(),
        smoothing: SmoothingConfig::default(),
    };
    let key1 = CacheKey::new("History", "2024-01-01", "2024-01-02", None, Some(&config1));
    let key2 = CacheKey::new("History", "2024-01-01", "2024-01-02", None, Some(&config2));
    assert_ne!(key1, key2);
}

#[test]
fn cache_key_absent_and_empty_tags_agree() {
    let none = CacheKey::new("History", "a", "b", None, None);
    let empty: [String; 0] = [];
    let some_empty = CacheKey::new("History", "a", "b", Some(&empty), None);
    assert_eq!(none, some_empty);
    let tagged = CacheKey::new("History", "a", "b", Some(&["t".to_string()]), None);
    assert_ne!(none, tagged);
}

#[test]
fn cache_key_tags_are_sorted() {
    let key = CacheKey::new(
        "History",
        "a",
        "b",
        Some(&["b".to_string(), "c".to_string(), "a".to_string()]),
        None,
    );
    assert_eq!(key.tags, vec!["a".to_string(), "b".to_string(), "c".to_string()]);
    assert_eq!(key.table, "History");
}

#[test]
fn signature_separates_each_option() {
    let base = DataProcessingConfig::new()
        .with_outlier_removal("3sigma")
        .with_resample(60, "mean")
        .with_smoothing(5, "moving_avg");
    let base_sig = processing_signature(Some(&base));
    assert_ne!(base_sig, 0);
    let mut variants = Vec::new();
    let mut c = base.clone();
    c.outlier_removal.enabled = false;
    variants.push(c);
    let mut c = base.clone();
    c.resample.enabled = false;
    variants.push(c);
    let mut c = base.clone();
    c.resample.interval = 61;
    variants.push(c);
    let mut c = base.clone();
    c.smoothing.enabled = false;
    variants.push(c);
    let mut c = base.clone();
    c.smoothing.window = 6;
    variants.push(c);
    let mut c = base.clone();
    c.outlier_removal.method = "iqr".to_string();
    variants.push(c);
    let mut c = base.clone();
    c.resample.method = "max".to_string();
    variants.push(c);
    let mut c = base.clone();
    c.smoothing.method = "median".to_string();
    variants.push(c);
    for v in &variants {
        assert_ne!(processing_signature(Some(v)), base_sig);
    }
    assert_eq!(processing_signature(None), 0);
    assert_eq!(processing_signature(Some(&base.clone())), base_sig);
}

#[test]
fn test_cache_put_get() {
    let mut cache = QueryCache::with_defaults();
    let key = CacheKey::new("History", "2024-01-01", "2024-01-02", None, None);
    let data = vec![record("2024-01-01T00:00:00", "tag1", 1.0)];
    cache.put(key.clone(), data.clone(), 1_000);
    let result = cache.get(&key, 1_000);
    assert!(result.is_some());
    assert_eq!(result.unwrap(), data);
}

#[test]
fn test_cache_clear() {
    let mut cache = QueryCache::with_defaults();
    let key = CacheKey::new("History", "2024-01-01", "2024-01-02", None, None);
    cache.put(key.clone(), vec![], 0);
    assert!(cache.get(&key, 0).is_some());
    cache.clear();
    let stats = cache.get_stats();
    assert_eq!(stats.hits, 0);
    assert_eq!(stats.misses, 0);
    assert_eq!(stats.entries, 0);
    assert!(cache.get(&key, 0).is_none());
}

#[test]
fn test_cache_stats() {
    let mut cache = QueryCache::with_defaults();
    let key = CacheKey::new("History", "2024-01-01", "2024-01-02", None, None);
    assert!(cache.get(&key, 0).is_none());
    cache.put(key.clone(), vec![record("2024-01-01T00:00:00", "tag1", 1.0); 3], 0);
    assert!(cache.get(&key, 0).is_some());
    let stats = cache.get_stats();
    assert_eq!(stats.hits, 1);
    assert_eq!(stats.misses, 1);
    assert_eq!(stats.entries, 1);
    assert_eq!(stats.max_entries, 50);
    assert_eq!(stats.estimated_memory_bytes, 300);
}

#[test]
fn test_cache_lru_eviction() {
    let mut cache = QueryCache::new(CacheConfig { max_entries: 3, ttl_seconds: 300 });
    for i in 0..4 {
        cache.put(day_key(i + 1), vec![], 0);
    }
    assert_eq!(cache.get_stats().entries, 3, "the cache holds three entries");
    assert!(cache.get(&day_key(1), 0).is_none(), "the first entry is evicted");
    assert!(cache.get(&day_key(4), 0).is_some(), "the last entry stays");
}

#[test]
fn lru_recency_follows_reads() {
    let mut cache = QueryCache::new(CacheConfig { max_entries: 3, ttl_seconds: 300 });
    for i in 1..4 {
        cache.put(day_key(i), vec![], 0);
    }
    assert!(cache.get(&day_key(1), 0).is_some());
    cache.put(day_key(4), vec![], 0);
    assert!(cache.get(&day_key(2), 0).is_none());
    assert!(cache.get(&day_key(1), 0).is_some());
    assert!(cache.get(&day_key(3), 0).is_some());
    assert!(cache.get(&day_key(4), 0).is_some());
}

#[test]
fn put_replaces_existing_key() {
    let mut cache = QueryCache::new(CacheConfig { max_entries: 2, ttl_seconds: 300 });
    cache.put(day_key(1), vec![], 0);
    cache.put(day_key(2), vec![], 0);
    let data = vec![record("2024-01-01T00:00:00", "tag1", 2.5)];
    cache.put(day_key(1), data.clone(), 0);
    assert_eq!(cache.get_stats().entries, 2);
    assert_eq!(cache.get(&day_key(1), 0), Some(data));
    assert!(cache.get(&day_key(2), 0).is_some());
}

#[test]
fn zero_capacity_uses_default_bound() {
    let mut cache = QueryCache::new(CacheConfig { max_entries: 0, ttl_seconds: 300 });
    for i in 0..60 {
        let key = CacheKey::new("History", &format!("d{}", i), "e", None, None);
        cache.put(key, vec![], 0);
    }
    assert_eq!(cache.get_stats().entries, 50);
}

#[test]
fn test_cache_ttl_expiration() {
    let mut cache = QueryCache::new(CacheConfig { max_entries: 10, ttl_seconds: 1 });
    let key = CacheKey::new("History", "2024-01-01", "2024-01-02", None, None);
    cache.put(key.clone(), vec![record("2024-01-01T00:00:00", "tag1", 1.0)], 5_000);
    assert!(cache.get(&key, 5_000).is_some(), "an immediate lookup hits");
    assert!(cache.get(&key, 6_000).is_some(), "exactly one second later still hits");
    assert!(cache.get(&key, 7_000).is_none(), "after the time to live it misses");
    assert_eq!(cache.get_stats().entries, 0);
}

#[test]
fn test_cache_evict_expired() {
    let mut cache = QueryCache::new(CacheConfig { max_entries: 10, ttl_seconds: 1 });
    for i in 0..3 {
        cache.put(day_key(i + 1), vec![], 0);
    }
    cache.put(day_key(9), vec![], 1_500);
    assert_eq!(cache.get_stats().entries, 4);
    cache.evict_expired(2_001);
    assert_eq!(cache.get_stats().entries, 1, "expired entries are swept");
    assert!(cache.get(&day_key(9), 2_001).is_some());
}
