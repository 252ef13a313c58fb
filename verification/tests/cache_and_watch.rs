use simple_image_viewer::cache::ThumbnailCache;
use simple_image_viewer::watcher_utils::{Subscription, WatchError, WatchRegistry};

#[test]
fn cache_get_put_and_replace() {
    let mut cache = ThumbnailCache::new();
    assert_eq!(cache.get("/a"), None);
    assert!(!cache.contains("/a"));
    cache.put("/a".to_string(), "/a/1.jpg".to_string());
    assert!(cache.contains("/a"));
    assert_eq!(cache.get("/a"), Some("/a/1.jpg".to_string()));
    cache.put("/a".to_string(), "/a/2.jpg".to_string());
    assert_eq!(cache.get("/a"), Some("/a/2.jpg".to_string()));
}

#[test]
fn invalidation_removes_keys_with_the_prefix_only() {
    let mut cache = ThumbnailCache::new();
    for key in ["/foo/bar", "/foo/bar/x", "/foo/barbaz", "/foo/ba", "/other", "/foo"] {
        cache.put(key.to_string(), format!("{}/t.png", key));
    }
    cache.invalidate_subtree("/foo/bar");
    assert_eq!(cache.get("/foo/bar"), None);
    assert_eq!(cache.get("/foo/bar/x"), None);
    // plain text prefix: no path boundary
    assert_eq!(cache.get("/foo/barbaz"), None);
    assert_eq!(cache.get("/foo/ba"), Some("/foo/ba/t.png".to_string()));
    assert_eq!(cache.get("/other"), Some("/other/t.png".to_string()));
    assert_eq!(cache.get("/foo"), Some("/foo/t.png".to_string()));
    cache.invalidate_subtree("");
    assert_eq!(cache.get("/other"), None);
    assert_eq!(cache.get("/foo"), None);
}

#[test]
fn invalidation_of_an_absent_prefix_changes_nothing() {
    let mut cache = ThumbnailCache::new();
    cache.put("/a".to_string(), "t".to_string());
    cache.invalidate_subtree("/b");
    assert_eq!(cache.get("/a"), Some("t".to_string()));
}

#[test]
fn three_subscribers_share_one_watch() {
    let mut registry: WatchRegistry<u32> = WatchRegistry::new();
    assert_eq!(registry.subscribe_directory("/p"), Subscription::NeedsWatch);
    assert_eq!(registry.watch_count(), 0);
    assert_eq!(registry.register_watch("/p".to_string(), 7), None);
    assert_eq!(registry.subscribe_directory("/p"), Subscription::Shared);
    assert_eq!(registry.subscribe_directory("/p"), Subscription::Shared);
    assert_eq!(registry.subscriber_count("/p"), 3);
    assert_eq!(registry.watch_count(), 1);

    assert_eq!(registry.unsubscribe_directory("/p"), None);
    assert_eq!(registry.unsubscribe_directory("/p"), None);
    assert_eq!(registry.subscriber_count("/p"), 1);
    assert_eq!(registry.watch_count(), 1);

    assert_eq!(registry.unsubscribe_directory("/p"), Some(7));
    assert_eq!(registry.subscriber_count("/p"), 0);
    assert_eq!(registry.watch_count(), 0);

    assert_eq!(registry.unsubscribe_directory("/p"), None);
    assert_eq!(registry.watch_count(), 0);
}

#[test]
fn failed_watch_creation_leaves_no_entry() {
    let mut registry: WatchRegistry<u32> = WatchRegistry::new();
    assert_eq!(registry.subscribe_directory("/p"), Subscription::NeedsWatch);
    // the watch could not be created: the subscription fails, nothing is registered
    assert_eq!(registry.complete_subscription("/p".to_string(), None), Err(WatchError::WatchUnavailable));
    assert_eq!(registry.subscriber_count("/p"), 0);
    assert_eq!(registry.watch_count(), 0);
    assert_eq!(registry.subscribe_directory("/p"), Subscription::NeedsWatch);
    // a later attempt succeeds
    assert_eq!(registry.complete_subscription("/p".to_string(), Some(4)), Ok(None));
    assert_eq!(registry.subscriber_count("/p"), 1);
    assert_eq!(registry.complete_subscription("/p".to_string(), Some(5)), Ok(Some(5)));
    assert_eq!(registry.subscriber_count("/p"), 2);
    // a failure for a watched path leaves its subscribers alone
    assert_eq!(registry.complete_subscription("/p".to_string(), None), Err(WatchError::WatchUnavailable));
    assert_eq!(registry.subscriber_count("/p"), 2);
}

#[test]
fn second_watch_for_a_watched_path_comes_back() {
    let mut registry: WatchRegistry<u32> = WatchRegistry::new();
    assert_eq!(registry.register_watch("/p".to_string(), 1), None);
    assert_eq!(registry.register_watch("/p".to_string(), 2), Some(2));
    assert_eq!(registry.subscriber_count("/p"), 2);
    assert_eq!(registry.register_watch("/q".to_string(), 3), None);
    assert_eq!(registry.watch_count(), 2);
    assert_eq!(registry.unsubscribe_directory("/p"), None);
    assert_eq!(registry.unsubscribe_directory("/p"), Some(1));
    assert_eq!(registry.unsubscribe_directory("/q"), Some(3));
}
