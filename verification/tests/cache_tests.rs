use blocklist_worker::db::cache::{CacheRepository, CacheStore, StoredContent, MILLIS_PER_DAY};

const NOW: i64 = 1_700_000_000_000;

fn put(cache: &mut CacheStore, hash: &str, content: &[u8], at: i64) {
    CacheRepository::new().store(
        cache,
        StoredContent {
            url_hash: hash,
            url: "https://a.example/x",
            content,
            etag: Some("\"v1\""),
            last_modified: None,
            domain_count: 3,
        },
        at,
    );
}

#[test]
fn a_cache_entry_is_valid_for_seven_days() {
    let repo = CacheRepository::new();
    let mut cache = CacheStore::new();
    put(&mut cache, "h", b"x", NOW);
    let week = 7 * MILLIS_PER_DAY;
    assert!(repo.has_valid_cache(&cache, "h", NOW));
    assert!(repo.has_valid_cache(&cache, "h", NOW + week - 1));
    assert!(repo.has_valid_cache(&cache, "h", NOW + week));
    assert!(!repo.has_valid_cache(&cache, "h", NOW + week + 1));
    assert!(!repo.has_valid_cache(&cache, "other", NOW));
    assert!(!repo.has_valid_cache(&CacheStore::new(), "h", NOW));
    cache.entries[0].content = None;
    assert!(!repo.has_valid_cache(&cache, "h", NOW));
    cache.entries[0].content = Some(Vec::new());
    cache.entries[0].updated_at = None;
    assert!(!repo.has_valid_cache(&cache, "h", NOW));
}

#[test]
fn storing_writes_the_content_and_what_is_known_of_it() {
    let mut cache = CacheStore::new();
    put(&mut cache, "h", b"0.0.0.0 ads.example.com\n", NOW);
    assert_eq!(cache.entries.len(), 1);
    let e = &cache.entries[0];
    assert_eq!(e.url_hash, "h");
    assert_eq!(e.url.as_deref(), Some("https://a.example/x"));
    assert_eq!(e.content.as_deref(), Some(&b"0.0.0.0 ads.example.com\n"[..]));
    assert_eq!(e.etag.as_deref(), Some("\"v1\""));
    assert_eq!(e.last_modified, None);
    assert_eq!(e.content_hash.as_deref(), Some("37bbea18cb39f55430c71b849047e8c712aa65059825820f3b2217c76824f403"));
    assert_eq!((e.stats.size_bytes, e.stats.domain_count, e.stats.download_count, e.stats.access_count), (24, 3, 1, 0));
    assert_eq!((e.stats.last_download_at, e.stats.last_accessed_at, e.updated_at), (Some(NOW), None, Some(NOW)));

    put(&mut cache, "h", b"new", NOW + 5);
    put(&mut cache, "g", b"other", NOW + 6);
    assert_eq!(cache.entries.len(), 2);
    let e = &cache.entries[0];
    assert_eq!(e.content.as_deref(), Some(&b"new"[..]));
    assert_eq!((e.stats.size_bytes, e.stats.download_count, e.updated_at), (3, 2, Some(NOW + 5)));
    assert_eq!(cache.entries[1].url_hash, "g");
}

#[test]
fn reading_counts_as_an_access() {
    let repo = CacheRepository::new();
    let mut cache = CacheStore::new();
    put(&mut cache, "h", b"abc", NOW);
    assert_eq!(repo.get_content(&mut cache, "h", NOW + 1), Some(b"abc".to_vec()));
    assert_eq!(repo.get_content(&mut cache, "h", NOW + 2), Some(b"abc".to_vec()));
    assert_eq!(repo.get_content(&mut cache, "missing", NOW + 3), None);
    let e = &cache.entries[0];
    assert_eq!((e.stats.access_count, e.stats.last_accessed_at), (2, Some(NOW + 2)));
    assert_eq!((e.stats.download_count, e.updated_at), (1, Some(NOW)));
    cache.entries[0].content = None;
    assert_eq!(repo.get_content(&mut cache, "h", NOW + 4), None);
    assert_eq!(cache.entries[0].stats.access_count, 2);
    cache.entries[0].content = Some(vec![1]);
    cache.entries[0].stats.access_count = i64::MAX;
    assert_eq!(repo.get_content(&mut cache, "h", NOW + 5), Some(vec![1]));
    assert_eq!(cache.entries[0].stats.access_count, i64::MAX);
}

#[test]
fn the_domain_count_is_noted_after_extraction() {
    let repo = CacheRepository::new();
    let mut cache = CacheStore::new();
    put(&mut cache, "h", b"abc", NOW);
    repo.update_domain_count(&mut cache, "h", 42, NOW + 9);
    repo.update_domain_count(&mut cache, "missing", 1, NOW + 9);
    assert_eq!(cache.entries.len(), 1);
    assert_eq!((cache.entries[0].stats.domain_count, cache.entries[0].updated_at), (42, Some(NOW + 9)));
    assert_eq!(cache.entries[0].stats.last_download_at, Some(NOW));
}

#[test]
fn stale_entries_are_removed() {
    let repo = CacheRepository::new();
    let mut cache = CacheStore::new();
    put(&mut cache, "old", b"1", NOW - 10 * MILLIS_PER_DAY);
    put(&mut cache, "edge", b"2", NOW - 7 * MILLIS_PER_DAY);
    put(&mut cache, "older", b"3", NOW - 7 * MILLIS_PER_DAY - 1);
    put(&mut cache, "new", b"4", NOW);
    put(&mut cache, "undated", b"5", NOW);
    cache.entries[4].updated_at = None;
    assert_eq!(repo.cleanup_stale(&mut cache, 7, NOW), 2);
    let left: Vec<&str> = cache.entries.iter().map(|e| e.url_hash.as_str()).collect();
    assert_eq!(left, vec!["edge", "new", "undated"]);
    assert_eq!(repo.cleanup_stale(&mut cache, 7, NOW), 0);
    assert_eq!(repo.cleanup_stale(&mut cache, 0, NOW + 1), 2);
    assert_eq!(repo.cleanup_stale(&mut cache, i64::MAX, i64::MIN), 0);
    assert_eq!(cache.entries.len(), 1);
}
