use basilisk::cache::base::{
    apply_sort_options, select_provider, supported_providers, CacheProviderKind,
};
use basilisk::cache::in_memory::InMemoryCacheManager;
use basilisk::cache::memcached;
use basilisk::cache::memcached::StoredEntry;
use basilisk::cache::runtime::{namespaced_key, normalize_namespace, visible_keys, GatewayCache};
use basilisk::cache::value::CacheValue;
use basilisk::clock::Moment;
use basilisk::sorted::SortedSet;
use std::collections::VecDeque;
use std::time::{Duration, Instant};

fn exercise_cache(cache: &mut GatewayCache) {
    assert_eq!(cache.get("missing"), None);
    assert_eq!(cache.get_or_set("greeting", "hello".to_string()), "hello");
    assert_eq!(cache.get("greeting").as_deref(), Some("hello"));
    assert!(!cache.set_if_not_exists("greeting", "ignored".to_string()));
    cache.set("counter", "10".to_string());
    assert_eq!(cache.incr("counter", 5), Some(15));
    assert_eq!(cache.decr("counter", 3), Some(12));

    cache.set_with_ttl("ttl", "bye".to_string(), 0);
    assert_eq!(cache.get("ttl"), None);
    cache.set("ephemeral", "soon-gone".to_string());
    cache.expire("ephemeral", 0);
    assert!(!cache.key_exists("ephemeral"));

    cache.list_append("jobs", "b".to_string());
    cache.list_prepend("jobs", "a".to_string());
    cache.list_append("jobs", "c".to_string());
    assert_eq!(cache.list_length("jobs"), 3);
    assert_eq!(cache.list_index("jobs", 1).as_deref(), Some("b"));
    assert_eq!(cache.list_range("jobs", 0, 1), vec!["a", "b"]);
    assert_eq!(cache.list_pop_left("jobs").as_deref(), Some("a"));
    assert_eq!(cache.list_pop_right("jobs").as_deref(), Some("c"));

    assert!(cache.set_add("tags", "3".to_string()));
    assert!(cache.set_add("tags", "1".to_string()));
    assert!(cache.set_add("tags", "2".to_string()));
    assert!(!cache.set_add("tags", "2".to_string()));
    assert!(cache.set_is_member("tags", "1"));
    assert_eq!(cache.set_members("tags"), vec!["1", "2", "3"]);
    assert_eq!(cache.set_random_member("tags").as_deref(), Some("1"));
    assert_eq!(cache.set_sort("tags"), vec!["1", "2", "3"]);
    assert_eq!(
        cache.set_sort_with_options("tags", "DESC LIMIT 0 2"),
        vec!["3", "2"]
    );
    assert_eq!(cache.set_card("tags"), 3);
    assert!(cache.set_remove("tags", "2".to_string()));

    cache.hash_set("user:1", "name", "Basil".to_string());
    cache.hash_set("user:1", "role", "admin".to_string());
    assert_eq!(cache.hash_get("user:1", "name").as_deref(), Some("Basil"));
    assert!(cache.hash_exists("user:1", "role"));
    assert_eq!(cache.hash_fields("user:1"), vec!["name", "role"]);
    assert_eq!(cache.hash_random_field("user:1").as_deref(), Some("name"));
    assert_eq!(cache.hash_length("user:1"), 2);
    assert!(cache.hash_delete("user:1", "role"));

    let keys = cache.keys();
    assert!(keys.contains(&"greeting".to_string()));
    assert!(keys.contains(&"counter".to_string()));
    assert!(cache.key_exists("greeting"));
    assert!(cache.unlink("greeting"));
    cache.delete("counter");
    assert!(!cache.key_exists("counter"));
}

#[test]
fn memory_cache_manager_implements_full_trait_surface() {
    assert_eq!(select_provider("memory"), Ok(CacheProviderKind::Memory));
    let mut cache = GatewayCache::in_memory();
    exercise_cache(&mut cache);
}

#[test]
fn cache_factory_supports_all_configured_providers() {
    assert_eq!(select_provider("redis"), Ok(CacheProviderKind::Redis));
    assert_eq!(select_provider("memcached"), Ok(CacheProviderKind::Memcached));
    assert_eq!(select_provider("memory"), Ok(CacheProviderKind::Memory));
    assert_eq!(supported_providers(), vec!["memory", "redis", "memcached"]);
    for name in supported_providers() {
        assert_eq!(CacheProviderKind::try_new(&name), Ok(CacheProviderKind::new(&name)));
    }
    assert!(CacheProviderKind::try_new("Memory").is_err());
    assert!(CacheProviderKind::try_new(" redis").is_err());
    assert_eq!(
        select_provider("disk"),
        Err("Unsupported cache provider: disk. Supported providers: memory, redis, memcached".to_string())
    );
}

#[test]
fn ttl_expiration_hides_entries_after_elapsed_time() {
    let mut cache = GatewayCache::in_memory();
    cache.set_with_ttl("session", "abc".to_string(), 1);
    assert_eq!(cache.get("session").as_deref(), Some("abc"));
    let started = Instant::now();
    while started.elapsed() < Duration::from_millis(1100) {}
    assert_eq!(cache.get("session"), None);
}

fn at(seconds: u64) -> Moment {
    Moment { seconds, nanos: 0 }
}

#[test]
fn time_to_live_ends_on_the_second() {
    let mut cache = InMemoryCacheManager::new();
    cache.set_with_ttl("k", "v".to_string(), 10, at(5));
    let just_before = Moment { seconds: 14, nanos: 999_999_999 };
    assert_eq!(cache.get("k", just_before).as_deref(), Some("v"));
    assert_eq!(cache.keys(just_before), vec!["k"]);
    assert_eq!(cache.get("k", at(15)), None);
    assert!(cache.keys(at(15)).is_empty());
    // The entry is hidden, but it was there.
    assert!(cache.unlink("k"));
    assert!(!cache.unlink("k"));
}

#[test]
fn a_value_of_another_kind_gives_way() {
    let mut cache = InMemoryCacheManager::new();
    cache.set_with_ttl("k", "v".to_string(), 10, at(0));
    assert_eq!(cache.list_length("k", at(1)), 0);
    assert_eq!(cache.list_pop_left("k", at(1)), None);
    assert_eq!(cache.get("k", at(1)).as_deref(), Some("v"));
    cache.list_append("k", "x".to_string(), at(1));
    assert_eq!(cache.get("k", at(1)), None);
    assert_eq!(cache.list_length("k", at(100)), 1);
}

#[test]
fn a_growing_list_keeps_its_deadline() {
    let mut cache = InMemoryCacheManager::new();
    cache.list_append("l", "a".to_string(), at(0));
    cache.expire("l", 10, at(0));
    cache.list_append("l", "b".to_string(), at(5));
    assert_eq!(cache.list_length("l", at(9)), 2);
    assert_eq!(cache.list_length("l", at(10)), 0);
    cache.list_append("l", "c".to_string(), at(11));
    assert_eq!(cache.list_range("l", 0, usize::MAX, at(1_000)), vec!["c"]);
}

#[test]
fn counters_read_numbers_and_forget_deadlines() {
    let mut cache = InMemoryCacheManager::new();
    assert_eq!(cache.incr("n", -3, at(0)), -3);
    assert_eq!(cache.decr("n", -5, at(0)), 2);
    cache.set("n", "not a number".to_string());
    assert_eq!(cache.incr("n", 7, at(0)), 7);
    cache.expire("n", 1, at(0));
    assert_eq!(cache.incr("n", 1, at(0)), 8);
    assert_eq!(cache.get("n", at(100)).as_deref(), Some("8"));
}

#[test]
fn counters_do_not_leave_their_range() {
    let mut cache = GatewayCache::in_memory();
    cache.set("n", i64::MAX.to_string());
    assert_eq!(cache.incr("n", 1), None);
    assert_eq!(cache.get("n"), Some(i64::MAX.to_string()));
    assert_eq!(cache.decr("n", i64::MIN), None);
    assert_eq!(cache.decr("n", 1), Some(i64::MAX - 1));
}

#[test]
fn list_range_is_inclusive_and_cut_off() {
    let mut cache = InMemoryCacheManager::new();
    for item in ["a", "b", "c"] {
        cache.list_append("l", item.to_string(), at(0));
    }
    assert_eq!(cache.list_range("l", 1, 1, at(0)), vec!["b"]);
    assert_eq!(cache.list_range("l", 1, 9, at(0)), vec!["b", "c"]);
    assert!(cache.list_range("l", 2, 1, at(0)).is_empty());
    assert!(cache.list_range("l", 3, 5, at(0)).is_empty());
    assert_eq!(cache.list_index("l", 3, at(0)), None);
}

#[test]
fn sort_options_turn_and_limit() {
    let values = vec!["a".to_string(), "b".to_string(), "c".to_string()];
    assert_eq!(apply_sort_options(values.clone(), ""), vec!["a", "b", "c"]);
    assert_eq!(apply_sort_options(values.clone(), "desc"), vec!["c", "b", "a"]);
    assert_eq!(apply_sort_options(values.clone(), "limit 1 1"), vec!["b"]);
    assert_eq!(apply_sort_options(values.clone(), "LIMIT 1"), vec!["a", "b", "c"]);
    assert_eq!(apply_sort_options(values.clone(), "LIMIT x 1"), vec!["a", "b", "c"]);
    assert_eq!(apply_sort_options(values.clone(), "DESC LIMIT 2 5"), vec!["a"]);
    assert!(apply_sort_options(values, "LIMIT 7 1").is_empty());
}

#[test]
fn what_has_expired_stays_expired() {
    let mut cache = GatewayCache::in_memory();
    cache.set_with_ttl("gone", "v".to_string(), 0);
    cache.set_with_ttl("kept", "v".to_string(), 600);
    for _ in 0..3 {
        assert_eq!(cache.get("gone"), None);
        assert!(!cache.key_exists("gone"));
        assert_eq!(cache.keys(), vec!["kept"]);
        assert_eq!(cache.get("kept").as_deref(), Some("v"));
        assert_eq!(cache.incr("count", 1), cache.get("count").and_then(|n| n.parse().ok()));
        cache.delete("count");
    }
}

#[test]
fn internal_keys_are_hidden_and_apart() {
    let mut cache = GatewayCache::in_memory();
    cache.set_internal_namespace(" :basilisk:gateway:proxy-api: ");
    assert_eq!(cache.internal_key("k"), "basilisk:gateway:proxy-api:k");
    cache.set("route-resolution:v0", "user-owned".to_string());
    assert_eq!(cache.internal_incr("route-resolution:v0", 1), Some(1));
    assert_eq!(cache.internal_get("route-resolution:v0").as_deref(), Some("1"));
    assert_eq!(cache.get("route-resolution:v0").as_deref(), Some("user-owned"));
    cache.internal_hash_set_with_ttl("h", "/a", "orders".to_string(), 60);
    assert_eq!(cache.internal_hash_get("h", "/a").as_deref(), Some("orders"));
    assert_eq!(cache.internal_hash_get("h", "/b"), None);
    assert_eq!(cache.keys(), vec!["route-resolution:v0"]);
    cache.reset_provider();
    assert!(cache.keys().is_empty());
    assert_eq!(normalize_namespace(" : "), "basilisk:gateway:runtime");
    assert_eq!(namespaced_key("ns", "k"), "ns:k");
    let all = vec!["ns:k".to_string(), "nsk".to_string(), "k".to_string()];
    assert_eq!(visible_keys(&all, "ns"), vec!["nsk", "k"]);
}

fn list_of(items: &[&str]) -> CacheValue {
    CacheValue::List(items.iter().map(|s| s.to_string()).collect::<VecDeque<String>>())
}

fn entry(value: CacheValue, expires_at_unix_ms: Option<u128>) -> Option<StoredEntry> {
    Some(StoredEntry { value, expires_at_unix_ms })
}

#[test]
fn memcached_times_to_live() {
    assert_eq!(memcached::ttl_for_entry(None, 5), 0);
    assert_eq!(memcached::ttl_for_entry(Some(5), 5), 1);
    assert_eq!(memcached::ttl_for_entry(Some(1_006), 5), 2);
    assert_eq!(memcached::current_ttl(None, 5), None);
    assert_eq!(memcached::current_ttl(Some(4), 5), Some(0));
    assert_eq!(memcached::current_ttl(Some(1_005), 5), Some(1));
    assert_eq!(memcached::current_ttl(Some(1_006), 5), Some(2));
    assert_eq!(memcached::expiry_after(Some(2), 5), Some(2_005));
    assert!(memcached::is_expired(Some(5), 5));
    assert!(!memcached::is_expired(Some(6), 5));
    assert!(!memcached::is_expired(None, 5));
}

#[test]
fn memcached_steps() {
    let next = memcached::list_appended(entry(list_of(&["a"]), Some(3_005)), "b".to_string(), 5);
    assert_eq!(next.expires_at_unix_ms, Some(3_005));
    match next.value {
        CacheValue::List(list) => assert_eq!(list, vec!["a", "b"]),
        _ => panic!("a list stays a list"),
    }
    let next = memcached::list_prepended(None, "b".to_string(), 5);
    assert!(matches!(next.value, CacheValue::List(_)));
    let (step, item) = memcached::list_popped(entry(list_of(&["a", "b"]), None), true, 5);
    assert_eq!(item.as_deref(), Some("a"));
    assert!(step.is_some());
    let (step, item) = memcached::list_popped(None, false, 5);
    assert!(step.is_none() && item.is_none());
    let (next, count) = memcached::incremented(entry(CacheValue::Text("4".to_string()), None), 3, 5);
    assert_eq!(count, 7);
    assert!(matches!(next.value, CacheValue::Text(s) if s == "7"));
    let (next, added) = memcached::member_added(None, "m".to_string(), 5);
    assert!(added);
    let (_, removed) = memcached::member_removed(Some(next), "m", 5);
    assert!(removed);
    let next = memcached::field_set(None, "f", "v".to_string(), 5);
    let (step, removed) = memcached::field_removed(Some(next), "f", 5);
    assert!(step.is_some() && removed);
    let made = memcached::entry_for(CacheValue::Text("x".to_string()), Some(1), 5);
    assert_eq!(made.expires_at_unix_ms, Some(1_005));
}

#[test]
fn memcached_index_and_address() {
    let mut index = SortedSet::new();
    assert!(!memcached::track_key(&mut index, memcached::key_index()));
    assert!(memcached::track_key(&mut index, "b"));
    assert!(memcached::track_key(&mut index, "a"));
    assert_eq!(index.to_vec(), vec!["a", "b"]);
    assert!(memcached::untrack_key(&mut index, "a"));
    assert!(!memcached::untrack_key(&mut index, "a"));
    assert_eq!(
        memcached::memcached_address("memcache://127.0.0.1:11211").as_deref(),
        Some("127.0.0.1:11211")
    );
    assert_eq!(
        memcached::memcached_address("memcache://host:1/path").as_deref(),
        Some("host:1")
    );
    assert_eq!(memcached::memcached_address("host:1"), None);
}
