use euporia_store::cart::CartSessionStore;
use euporia_store::conversation::ConversationStore;
use euporia_store::error::StoreError;
use euporia_store::insight::{cache_key, InsightCache, DEFAULT_TTL_SECS};
use euporia_store::profile::ProfileStore;
use euporia_store::wishlist::WishlistStore;
use serde_json::Value;

fn doc(text: &str) -> Value {
    serde_json::from_str(text).unwrap()
}

#[test]
fn profile_last_write_wins() {
    let mut store = ProfileStore::new();
    store.save("s1".to_string(), doc(r#"{"likes":["red"],"size":"M"}"#), 0);
    store.save("s1".to_string(), doc(r#"{"likes":["blue"]}"#), 5);
    assert_eq!(store.get(&"s1".to_string()), Ok(doc(r#"{"likes":["blue"]}"#)));
}

#[test]
fn profile_save_twice_same_as_once() {
    let mut once = ProfileStore::new();
    once.save("s1".to_string(), doc(r#"{"a":1}"#), 0);
    let mut twice = ProfileStore::new();
    twice.save("s1".to_string(), doc(r#"{"a":1}"#), 0);
    twice.save("s1".to_string(), doc(r#"{"a":1}"#), 9);
    assert_eq!(once.get(&"s1".to_string()), twice.get(&"s1".to_string()));
    assert_eq!(twice.get(&"s1".to_string()), Ok(doc(r#"{"a":1}"#)));
}

#[test]
fn profile_missing_session_is_none() {
    let mut store = ProfileStore::new();
    store.save("s1".to_string(), doc("null"), 0);
    assert_eq!(store.get(&"s2".to_string()), Err(StoreError::NotFound));
    assert_eq!(store.get(&"s1".to_string()), Ok(Value::Null));
}

#[test]
fn cart_session_last_write_wins() {
    let mut store = CartSessionStore::new();
    assert_eq!(store.get(&"s1".to_string()), Err(StoreError::NotFound));
    store.save("s1".to_string(), "cart-a".to_string(), 0);
    store.save("s1".to_string(), "cart-b".to_string(), 3);
    store.save("s2".to_string(), "cart-c".to_string(), 0);
    assert_eq!(store.get(&"s1".to_string()), Ok("cart-b".to_string()));
    assert_eq!(store.get(&"s2".to_string()), Ok("cart-c".to_string()));
}

#[test]
fn saves_at_current_time_read_back() {
    let mut profiles = ProfileStore::new();
    profiles.save_now("s1".to_string(), doc(r#"{"a":1}"#));
    profiles.save_now("s1".to_string(), doc(r#"{"b":2}"#));
    assert_eq!(profiles.get(&"s1".to_string()), Ok(doc(r#"{"b":2}"#)));
    let mut carts = CartSessionStore::new();
    carts.save_now("s1".to_string(), "cart-a".to_string());
    assert_eq!(carts.get(&"s1".to_string()), Ok("cart-a".to_string()));
}

#[test]
fn cache_key_with_and_without_scope() {
    assert_eq!(cache_key(Some("acme"), "widget-1"), "acme:widget-1");
    assert_eq!(cache_key(None, "widget-1"), "widget-1");
    assert_eq!(cache_key(Some(""), "w"), ":w");
}

#[test]
fn insight_readable_until_ttl_then_evicted() {
    let mut cache = InsightCache::new();
    let key = "p1".to_string();
    cache.save(key.clone(), doc(r#"{"score":7}"#), 1000, 10);
    assert_eq!(cache.get(&key, 1000), Ok(doc(r#"{"score":7}"#)));
    assert_eq!(cache.get(&key, 1009), Ok(doc(r#"{"score":7}"#)));
    assert!(cache.holds(&key));
    assert_eq!(cache.get(&key, 1010), Err(StoreError::NotFound));
    assert!(!cache.holds(&key));
    assert_eq!(cache.get(&key, 1000), Err(StoreError::NotFound));
}

#[test]
fn insight_expired_entry_stays_until_read() {
    let mut cache = InsightCache::new();
    cache.save("a".to_string(), doc("1"), 0, 5);
    cache.save("b".to_string(), doc("2"), 0, 5);
    assert_eq!(cache.get(&"a".to_string(), 100), Err(StoreError::NotFound));
    assert!(!cache.holds(&"a".to_string()));
    assert!(cache.holds(&"b".to_string()));
}

#[test]
fn insight_overwrite_resets_expiry() {
    let mut cache = InsightCache::new();
    let key = "p1".to_string();
    cache.save(key.clone(), doc("1"), 0, 10);
    cache.save(key.clone(), doc("2"), 50, 10);
    assert_eq!(cache.get(&key, 55), Ok(doc("2")));
    assert_eq!(cache.get(&key, 60), Err(StoreError::NotFound));
}

#[test]
fn insight_expiry_held_at_largest_time() {
    let mut cache = InsightCache::new();
    let key = "p1".to_string();
    cache.save(key.clone(), doc("1"), i64::MAX - 5, 10);
    assert_eq!(cache.get(&key, i64::MAX - 1), Ok(doc("1")));
    assert_eq!(cache.get(&key, i64::MAX), Err(StoreError::NotFound));
}

#[test]
fn insight_default_ttl_is_a_day() {
    assert_eq!(DEFAULT_TTL_SECS, 24 * 60 * 60);
    let mut cache = InsightCache::new();
    cache.save("k".to_string(), doc("1"), 0, DEFAULT_TTL_SECS);
    assert_eq!(cache.get(&"k".to_string(), 86399), Ok(doc("1")));
    assert_eq!(cache.get(&"k".to_string(), 86400), Err(StoreError::NotFound));
}

#[test]
fn insight_scoped_slot_is_distinct() {
    let mut cache = InsightCache::new();
    cache.save_now(cache_key(Some("acme"), "widget-1"), doc(r#"{"score":7}"#));
    assert_eq!(
        cache.get_now(&cache_key(Some("acme"), "widget-1")),
        Ok(doc(r#"{"score":7}"#))
    );
    assert_eq!(cache.get_now(&cache_key(None, "widget-1")), Err(StoreError::NotFound));
}

#[test]
fn wishlist_add_twice_lists_once() {
    let mut store = WishlistStore::new();
    let first = store.add_now("s1".to_string(), "p1".to_string(), None, None, None);
    let second = store.add_now("s1".to_string(), "p1".to_string(), None, None, None);
    assert!(first.is_ok());
    assert!(second.is_ok());
    let items = store.list(&"s1".to_string());
    assert_eq!(items.len(), 1);
    assert_eq!(items[0].product_handle, "p1");
    assert_eq!(Ok(items[0].id.clone()), first);
}

#[test]
fn wishlist_fresh_ids_differ() {
    let mut store = WishlistStore::new();
    let a = store.add_now("s1".to_string(), "p1".to_string(), None, None, None).unwrap();
    let b = store.add_now("s1".to_string(), "p2".to_string(), None, None, None).unwrap();
    assert_ne!(a, b);
    assert_eq!(a.len(), 36);
}

#[test]
fn wishlist_duplicate_keeps_first_item() {
    let mut store = WishlistStore::new();
    let r1 = store.add(
        "s1".to_string(),
        "p1".to_string(),
        Some("Lamp".to_string()),
        None,
        Some("19.90".to_string()),
        "i1".to_string(),
        10,
    );
    let r2 = store.add(
        "s1".to_string(),
        "p1".to_string(),
        Some("Other".to_string()),
        None,
        None,
        "i2".to_string(),
        20,
    );
    assert_eq!(r1, Ok("i1".to_string()));
    assert_eq!(r2, Ok("i2".to_string()));
    let items = store.list(&"s1".to_string());
    assert_eq!(items.len(), 1);
    assert_eq!(items[0].id, "i1");
    assert_eq!(items[0].product_title, Some("Lamp".to_string()));
    assert_eq!(items[0].product_price, Some("19.90".to_string()));
    assert_eq!(items[0].created_at, 10);
}

#[test]
fn wishlist_id_clash_is_storage_failure() {
    let mut store = WishlistStore::new();
    let r1 = store.add("s1".to_string(), "p1".to_string(), None, None, None, "i1".to_string(), 1);
    let r2 = store.add("s2".to_string(), "p9".to_string(), None, None, None, "i1".to_string(), 2);
    assert_eq!(r1, Ok("i1".to_string()));
    assert_eq!(r2, Err(StoreError::StorageFailure));
    assert!(store.list(&"s2".to_string()).is_empty());
}

#[test]
fn wishlist_lists_newest_first_per_session() {
    let mut store = WishlistStore::new();
    store.add("s1".to_string(), "p1".to_string(), None, None, None, "i1".to_string(), 1).unwrap();
    store.add("s2".to_string(), "p1".to_string(), None, None, None, "i2".to_string(), 2).unwrap();
    store.add("s1".to_string(), "p2".to_string(), None, None, None, "i3".to_string(), 3).unwrap();
    let items = store.list(&"s1".to_string());
    let ids: Vec<&str> = items.iter().map(|i| i.id.as_str()).collect();
    assert_eq!(ids, vec!["i3", "i1"]);
    assert_eq!(store.list(&"s2".to_string()).len(), 1);
    assert!(store.list(&"s3".to_string()).is_empty());
}

#[test]
fn wishlist_remove_ignores_session() {
    let mut store = WishlistStore::new();
    store.add("s1".to_string(), "p1".to_string(), None, None, None, "i1".to_string(), 1).unwrap();
    store.add("s1".to_string(), "p2".to_string(), None, None, None, "i2".to_string(), 2).unwrap();
    store.remove(&"i1".to_string());
    store.remove(&"missing".to_string());
    let items = store.list(&"s1".to_string());
    assert_eq!(items.len(), 1);
    assert_eq!(items[0].id, "i2");
    let again = store.add("s1".to_string(), "p1".to_string(), None, None, None, "i4".to_string(), 3);
    assert_eq!(again, Ok("i4".to_string()));
    assert_eq!(store.list(&"s1".to_string()).len(), 2);
}

#[test]
fn conversation_create_defaults() {
    let mut store = ConversationStore::new();
    let c = store.create_now("s1".to_string(), None).unwrap();
    assert_eq!(c.title, "New Chat");
    assert_eq!(c.session_id, "s1");
    assert_eq!(c.category, None);
    assert_eq!(c.icon, None);
    let content = store.get(&c.id).unwrap();
    assert_eq!(content.title, "New Chat");
    assert!(content.messages.is_empty());
}

#[test]
fn conversation_create_with_title() {
    let mut store = ConversationStore::new();
    let c = store.create("s1".to_string(), Some("Shoes".to_string()), "c1".to_string(), 5).unwrap();
    assert_eq!(c.id, "c1");
    assert_eq!(c.updated_at, 5);
    assert_eq!(store.get(&"c1".to_string()).unwrap().title, "Shoes");
    assert_eq!(store.get(&"c2".to_string()).err(), Some(StoreError::NotFound));
}

#[test]
fn conversation_id_clash_is_storage_failure() {
    let mut store = ConversationStore::new();
    store.create("s1".to_string(), None, "c1".to_string(), 1).unwrap();
    let r = store.create("s2".to_string(), None, "c1".to_string(), 2);
    assert_eq!(r.err(), Some(StoreError::StorageFailure));
    assert!(store.list(&"s2".to_string()).is_empty());
}

#[test]
fn conversation_update_replaces_messages_and_title() {
    let mut store = ConversationStore::new();
    store.create("s1".to_string(), None, "c1".to_string(), 1).unwrap();
    store.update(&"c1".to_string(), None, Some(vec![doc(r#"{"role":"user"}"#), doc("2")]), 2);
    store.update(&"c1".to_string(), None, Some(vec![doc("3")]), 3);
    let content = store.get(&"c1".to_string()).unwrap();
    assert_eq!(content.messages, vec![doc("3")]);
    assert_eq!(content.title, "New Chat");
    store.update(&"c1".to_string(), Some("Renamed".to_string()), None, 4);
    let content = store.get(&"c1".to_string()).unwrap();
    assert_eq!(content.title, "Renamed");
    assert_eq!(content.messages, vec![doc("3")]);
    assert_eq!(store.list(&"s1".to_string())[0].updated_at, 4);
}

#[test]
fn conversation_list_most_recent_first() {
    let mut store = ConversationStore::new();
    store.create("s1".to_string(), None, "c1".to_string(), 1).unwrap();
    store.create("s1".to_string(), None, "c2".to_string(), 2).unwrap();
    store.create("s2".to_string(), None, "c3".to_string(), 3).unwrap();
    let ids: Vec<String> = store.list(&"s1".to_string()).into_iter().map(|c| c.id).collect();
    assert_eq!(ids, vec!["c2".to_string(), "c1".to_string()]);
    store.update(&"c1".to_string(), None, None, 4);
    let ids: Vec<String> = store.list(&"s1".to_string()).into_iter().map(|c| c.id).collect();
    assert_eq!(ids, vec!["c1".to_string(), "c2".to_string()]);
    assert!(store.list(&"s9".to_string()).is_empty());
}

#[test]
fn conversation_update_unknown_id_keeps_rows() {
    let mut store = ConversationStore::new();
    store.create("s1".to_string(), None, "c1".to_string(), 1).unwrap();
    store.update(&"nope".to_string(), Some("x".to_string()), None, 2);
    let rows = store.list(&"s1".to_string());
    assert_eq!(rows.len(), 1);
    assert_eq!(rows[0].title, "New Chat");
    assert_eq!(rows[0].updated_at, 1);
    assert!(store.get(&"nope".to_string()).is_err());
}

#[test]
fn conversation_delete_removes_it() {
    let mut store = ConversationStore::new();
    store.create("s1".to_string(), None, "c1".to_string(), 1).unwrap();
    store.update(&"c1".to_string(), None, Some(vec![doc("1")]), 2);
    store.delete(&"c1".to_string());
    assert!(store.get(&"c1".to_string()).is_err());
    assert!(store.list(&"s1".to_string()).is_empty());
    store.delete(&"c1".to_string());
    store.create("s1".to_string(), None, "c1".to_string(), 3).unwrap();
    assert!(store.get(&"c1".to_string()).unwrap().messages.is_empty());
}

#[test]
fn conversation_list_ordered_by_update_time() {
    let mut store = ConversationStore::new();
    store.create("s1".to_string(), None, "c1".to_string(), 5).unwrap();
    store.create("s1".to_string(), None, "c2".to_string(), 3).unwrap();
    store.create("s1".to_string(), None, "c3".to_string(), 4).unwrap();
    let ids: Vec<String> = store.list(&"s1".to_string()).into_iter().map(|c| c.id).collect();
    assert_eq!(ids, vec!["c1".to_string(), "c3".to_string(), "c2".to_string()]);
    store.update(&"c1".to_string(), None, None, 1);
    let times: Vec<i64> = store.list(&"s1".to_string()).into_iter().map(|c| c.updated_at).collect();
    assert_eq!(times, vec![4, 3, 1]);
}

#[test]
fn conversation_update_unknown_id_stores_no_messages() {
    let mut store = ConversationStore::new();
    store.update(&"ghost".to_string(), None, Some(vec![doc("1")]), 1);
    assert_eq!(store.get(&"ghost".to_string()).err(), Some(StoreError::NotFound));
    assert!(store.list(&"s1".to_string()).is_empty());
}

#[test]
fn wishlist_list_ordered_by_creation_time() {
    let mut store = WishlistStore::new();
    store.add("s1".to_string(), "p1".to_string(), None, None, None, "i1".to_string(), 5).unwrap();
    store.add("s1".to_string(), "p2".to_string(), None, None, None, "i2".to_string(), 3).unwrap();
    store.add("s1".to_string(), "p3".to_string(), None, None, None, "i3".to_string(), 4).unwrap();
    let ids: Vec<String> = store.list(&"s1".to_string()).into_iter().map(|i| i.id).collect();
    assert_eq!(ids, vec!["i1".to_string(), "i3".to_string(), "i2".to_string()]);
}
