use rainbow_docs::cache::{AnalyzerConfig, CacheConfig, CacheKey, SimpleLruCache, WarmupStrategy};

fn key(doc: &str, version: u64) -> CacheKey {
    CacheKey { document_id: doc.to_string(), version, strategy: "adaptive".to_string() }
}

#[test]
fn lru_get_after_put_and_eviction() {
    let mut c: SimpleLruCache<u32> = SimpleLruCache::new(2);
    assert_eq!(c.put(key("a", 1), 1), None);
    assert_eq!(c.put(key("b", 1), 2), None);
    assert_eq!(c.get(&key("a", 1)), Some(&1));
    // "b" is now the least recently used entry.
    assert_eq!(c.put(key("c", 1), 3), Some(2));
    assert_eq!(c.len(), 2);
    assert_eq!(c.get(&key("b", 1)), None);
    assert_eq!(c.get(&key("c", 1)), Some(&3));
    // Replacing an entry evicts nothing.
    assert_eq!(c.put(key("c", 1), 4), None);
    assert_eq!(c.get(&key("c", 1)), Some(&4));
    assert_eq!(c.pop(&key("a", 1)), Some(1));
    assert_eq!(c.pop(&key("a", 1)), None);
    assert_eq!(c.len(), 1);
    c.clear();
    assert_eq!(c.len(), 0);
}

#[test]
fn lru_keys_follow_use() {
    let mut c: SimpleLruCache<&str> = SimpleLruCache::new(3);
    c.put(key("a", 1), "a");
    c.put(key("b", 1), "b");
    c.put(key("a", 2), "a2");
    c.get(&key("a", 1));
    let order: Vec<(String, u64)> = c.keys().into_iter().map(|k| (k.document_id, k.version)).collect();
    assert_eq!(order, vec![("b".to_string(), 1), ("a".to_string(), 2), ("a".to_string(), 1)]);
}

#[test]
fn zero_capacity_keeps_one_entry() {
    let mut c: SimpleLruCache<u8> = SimpleLruCache::new(0);
    assert_eq!(c.put(key("a", 1), 1), None);
    assert_eq!(c.put(key("b", 1), 2), Some(1));
    assert_eq!(c.len(), 1);
}

#[test]
fn cache_defaults() {
    let c = CacheConfig::default();
    assert_eq!(c.l1_capacity, 1000);
    assert_eq!(c.l2_capacity, 10000);
    assert_eq!(c.ttl_ms, 3_600_000);
    assert!(c.enable_l2);
    assert_eq!(c.warmup_strategy, WarmupStrategy::Lazy);
    let a = AnalyzerConfig::default();
    assert_eq!(a.history_retention_ms, 86_400_000);
    assert_eq!(a.max_history_size, 10000);
    assert_eq!(a.interval_window_size, 10);
}

use rainbow_docs::cache::ChunkingCache;

#[test]
fn two_level_cache_hits_misses_and_expiry() {
    let mut cache: ChunkingCache<String> = ChunkingCache::new(CacheConfig::default());
    let k = key("doc1", 1);
    assert!(cache.get(&k, 0).is_none());
    cache.set(k.clone(), "result".to_string(), 10);
    assert_eq!(cache.get(&k, 20).as_deref(), Some("result"));
    let stats = cache.get_stats();
    assert_eq!(stats.l1_hits, 1);
    assert_eq!(stats.l1_misses, 1);
    assert_eq!(stats.total_requests, 2);
    // After the time to live the entry is gone from both levels.
    assert!(cache.get(&k, 10 + 3_600_000).is_none());
    assert!(cache.get(&k, 10).is_none());
}

#[test]
fn second_level_refills_the_first() {
    let config = CacheConfig { l1_capacity: 1, ..CacheConfig::default() };
    let mut cache: ChunkingCache<u32> = ChunkingCache::new(config);
    cache.set(key("a", 1), 1, 0);
    cache.set(key("b", 1), 2, 0);
    assert_eq!(cache.get_stats().evictions, 1);
    assert_eq!(cache.get(&key("a", 1), 5), Some(1));
    let stats = cache.get_stats();
    assert_eq!((stats.l1_misses, stats.l2_hits), (1, 1));
    assert_eq!(cache.get(&key("a", 1), 6), Some(1));
    assert_eq!(cache.get_stats().l1_hits, 1);
}

#[test]
fn invalidation() {
    let mut cache: ChunkingCache<u32> = ChunkingCache::new(CacheConfig::default());
    let k = key("doc1", 1);
    cache.set(k.clone(), 7, 0);
    assert!(cache.get(&k, 1).is_some());
    cache.invalidate(&k);
    assert!(cache.get(&k, 2).is_none());
    cache.set(key("doc2", 1), 1, 0);
    cache.set(key("doc2", 2), 2, 0);
    cache.set(key("doc3", 1), 3, 0);
    cache.invalidate_document("doc2");
    assert!(cache.get(&key("doc2", 1), 1).is_none());
    assert!(cache.get(&key("doc2", 2), 1).is_none());
    assert_eq!(cache.get(&key("doc3", 1), 1), Some(3));
    cache.clear();
    assert_eq!(cache.get_stats().total_requests, 0);
    assert!(cache.get(&key("doc3", 1), 1).is_none());
}

#[test]
fn test_cache_basic_operations() {
    let mut cache: ChunkingCache<Vec<String>> = ChunkingCache::new(CacheConfig::default());
    let key = CacheKey { document_id: "doc1".to_string(), version: 1, strategy: "adaptive".to_string() };
    assert!(cache.get(&key, 0).is_none());
    let result: Vec<String> = vec![];
    cache.set(key.clone(), result.clone(), 0);
    assert!(cache.get(&key, 0).is_some());
    let stats = cache.get_stats();
    assert_eq!(stats.l1_hits, 1);
    assert_eq!(stats.l1_misses, 1);
    assert_eq!(stats.total_requests, 2);
}

#[test]
fn test_cache_invalidation() {
    let mut cache: ChunkingCache<Vec<String>> = ChunkingCache::new(CacheConfig::default());
    let key = CacheKey { document_id: "doc1".to_string(), version: 1, strategy: "adaptive".to_string() };
    let result: Vec<String> = vec![];
    cache.set(key.clone(), result, 0);
    assert!(cache.get(&key, 0).is_some());
    cache.invalidate(&key);
    assert!(cache.get(&key, 0).is_none());
}

#[test]
fn invalidating_one_key_keeps_the_others() {
    let mut cache: ChunkingCache<u32> = ChunkingCache::new(CacheConfig::default());
    cache.set(key("a", 1), 1, 0);
    cache.set(key("b", 1), 2, 0);
    cache.invalidate(&key("a", 1));
    assert!(cache.get(&key("a", 1), 0).is_none());
    assert_eq!(cache.get(&key("b", 1), 0), Some(2));
    let s = cache.get_stats();
    assert_eq!(s.total_requests, s.l1_hits + s.l1_misses);
}
