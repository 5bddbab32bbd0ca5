use edgequake_query::keywords::cache::InMemoryKeywordCache;
use edgequake_query::keywords::intent::{ExtractedKeywords, QueryIntent};
use edgequake_query::keywords::keyword_mode::{keyword_cache_enabled, keyword_mode_from_setting, KeywordMode};

fn kw() -> ExtractedKeywords {
    ExtractedKeywords::new(vec!["theme".to_string()], vec!["entity".to_string()], QueryIntent::Factual)
}

#[test]
fn test_in_memory_cache_basic() {
    let mut cache = InMemoryKeywordCache::new(10);
    cache.set("key1", &kw(), None, 0);
    let result = cache.get("key1", 1);
    assert!(result.is_some());
    assert_eq!(result.unwrap().high_level, vec!["theme".to_string()]);
    assert!(cache.get("nonexistent", 2).is_none());
    let stats = cache.stats();
    assert_eq!(stats.hits, 1);
    assert_eq!(stats.misses, 1);
}

#[test]
fn test_in_memory_cache_expiration() {
    let mut cache = InMemoryKeywordCache::new(10);
    cache.set("key1", &kw(), Some(1), 100);
    assert!(cache.get("key1", 110).is_none());
}

#[test]
fn test_in_memory_cache_eviction() {
    let mut cache = InMemoryKeywordCache::new(2);
    cache.set("key1", &kw(), None, 1);
    cache.set("key2", &kw(), None, 2);
    cache.get("key1", 3);
    cache.set("key3", &kw(), None, 4);
    assert!(cache.get("key1", 5).is_some());
    assert!(cache.get("key3", 6).is_some());
    assert!(cache.get("key2", 7).is_none());
}

#[test]
fn delete_and_clear_update_size() {
    let mut cache = InMemoryKeywordCache::new(5);
    cache.set("a", &kw(), None, 0);
    cache.set("b", &kw(), None, 0);
    assert_eq!(cache.stats().size, 2);
    cache.delete("a");
    assert_eq!(cache.stats().size, 1);
    assert!(cache.get("a", 1).is_none());
    cache.clear();
    assert_eq!(cache.stats().size, 0);
}

#[test]
fn keyword_mode_env_and_cache_settings() {
    assert_eq!(keyword_mode_from_setting(""), KeywordMode::Llm);
    assert_eq!(keyword_mode_from_setting("heuristic"), KeywordMode::Heuristic);
    assert_eq!(keyword_mode_from_setting(" FAST "), KeywordMode::Heuristic);
    assert!(keyword_cache_enabled(None));
    assert!(!keyword_cache_enabled(Some("off")));
    assert!(keyword_cache_enabled(Some("1")));
}

#[test]
fn durable_hits_are_kept_for_a_day() {
    let mut cache = InMemoryKeywordCache::new(10);
    cache.promote_durable_hit("k", &kw(), 1_000);
    assert!(cache.get("k", 1_000 + 86_399_999).is_some());
    assert!(cache.get("k", 1_000 + 86_400_000).is_none());
    // near the end of the clock the entry lasts until the last tick
    let mut late = InMemoryKeywordCache::new(10);
    late.promote_durable_hit("k", &kw(), u64::MAX - 5);
    assert!(late.get("k", u64::MAX - 1).is_some());
    assert!(late.get("k", u64::MAX).is_none());
}
