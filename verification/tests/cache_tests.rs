use pokemon_assistant::cache::{is_cache_fresh, next_lookup_action, InfoCache, LookupAction, LookupEvent, CACHE_TTL_SECS};

#[test]
fn info_cache_reads_back_what_was_written() {
    let mut cache: InfoCache<u32> = InfoCache::new();
    assert_eq!(cache.get(&"pikachu".to_string()), None);
    cache.insert("pikachu".to_string(), 25);
    cache.insert("eevee".to_string(), 133);
    assert_eq!(cache.get(&"pikachu".to_string()), Some(&25));
    assert_eq!(cache.get(&"eevee".to_string()), Some(&133));
    assert_eq!(cache.get(&"ditto".to_string()), None);
}

#[test]
fn info_cache_overwrites_a_key() {
    let mut cache: InfoCache<&str> = InfoCache::new();
    cache.insert("fire".to_string(), "old");
    cache.insert("fire".to_string(), "new");
    assert_eq!(cache.get(&"fire".to_string()), Some(&"new"));
}

#[test]
fn cache_freshness_at_the_limit() {
    assert!(is_cache_fresh(Some((0, 0))));
    assert!(is_cache_fresh(Some((CACHE_TTL_SECS, 0))));
    assert!(!is_cache_fresh(Some((CACHE_TTL_SECS, 1))));
    assert!(!is_cache_fresh(Some((CACHE_TTL_SECS + 1, 0))));
    assert!(is_cache_fresh(Some((CACHE_TTL_SECS - 1, 999_999_999))));
}

#[test]
fn cache_from_the_future_is_fresh() {
    assert!(is_cache_fresh(None));
}

#[test]
fn cache_ttl_is_one_year() {
    assert_eq!(CACHE_TTL_SECS, 31_536_000);
}

#[test]
fn lookup_tries_memory_then_disk_then_network() {
    assert!(matches!(next_lookup_action(LookupEvent::InMemory(Some(1))), LookupAction::Return(1)));
    assert!(matches!(next_lookup_action::<u8>(LookupEvent::InMemory(None)), LookupAction::ReadDisk));
    assert!(matches!(next_lookup_action(LookupEvent::OnDisk(Some(2))), LookupAction::StoreAndReturn(2)));
    assert!(matches!(next_lookup_action::<u8>(LookupEvent::OnDisk(None)), LookupAction::Fetch));
    assert!(matches!(next_lookup_action(LookupEvent::Fetched(3)), LookupAction::StoreAndReturn(3)));
}

#[test]
fn younger_cache_is_fresh() {
    assert!(is_cache_fresh(Some((CACHE_TTL_SECS, 0))));
    assert!(is_cache_fresh(Some((CACHE_TTL_SECS - 1, 5))));
    assert!(is_cache_fresh(Some((10, 0))));
}
