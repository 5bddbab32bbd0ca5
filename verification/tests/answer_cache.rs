use edgequake_query::answer_cache::{answer_cache_key, InMemoryAnswerCache};

#[test]
fn round_trip_and_hit() {
    let mut c = InMemoryAnswerCache::with_defaults();
    let k = answer_cache_key("prompt-a");
    assert!(c.get(&k, 0).is_none());
    assert_eq!(c.misses(), 1);
    c.set(&k, "answer-a", 1);
    assert_eq!(c.get(&k, 2).as_deref(), Some("answer-a"));
    assert_eq!(c.hits(), 1);
}

#[test]
fn different_prompts_different_keys() {
    assert_ne!(answer_cache_key("a"), answer_cache_key("b"));
}

#[test]
fn key_is_lowercase_hex_sha256() {
    assert_eq!(
        answer_cache_key("abc"),
        "ba7816bf8f01cfea414140de5dae2223b00361a396177a9cb410ff61f20015ad"
    );
    assert_eq!(
        answer_cache_key(""),
        "e3b0c44298fc1c149afbf4c8996fb92427ae41e4649b934ca495991b7852b855"
    );
    assert_eq!(answer_cache_key("prompt-a").len(), 64);
}

#[test]
fn answers_expire_after_ttl_and_are_dropped() {
    let mut c = InMemoryAnswerCache::new(10, 100);
    c.set("k", "v", 50);
    assert_eq!(c.get("k", 149).as_deref(), Some("v"));
    assert!(c.get("k", 150).is_none());
    assert_eq!((c.hits(), c.misses()), (1, 1));
    // the expired entry is gone: a second miss, not a stale hit
    assert!(c.get("k", 151).is_none());
    assert_eq!(c.misses(), 2);
}

#[test]
fn full_cache_evicts_least_recently_used() {
    let mut c = InMemoryAnswerCache::new(2, 1_000);
    c.set("a", "1", 1);
    c.set("b", "2", 2);
    assert_eq!(c.get("a", 3).as_deref(), Some("1"));
    c.set("c", "3", 4);
    assert!(c.get("b", 5).is_none());
    assert_eq!(c.get("a", 6).as_deref(), Some("1"));
    assert_eq!(c.get("c", 7).as_deref(), Some("3"));
    c.set("c", "3b", 8);
    assert_eq!(c.get("c", 9).as_deref(), Some("3b"));
    c.clear();
    assert!(c.get("a", 10).is_none());
}
