use blocklist_worker::config::Config;
use blocklist_worker::db::cache::{CacheRepository, CacheStore, StoredContent};
use blocklist_worker::db::progress::SourceStatus;
use blocklist_worker::downloader::{
    CacheLookup, DownloadResult, Downloader, LookupStep, PendingFetch, ResponseHead, Source,
    MAX_SOURCE_SIZE_BYTES,
};

fn source(url: &str) -> Source {
    Source { name: "list".to_string(), url: url.to_string(), category: None }
}

fn fetch(url: &str) -> PendingFetch {
    PendingFetch { source: source(url), url_hash: Downloader::hash_url(url) }
}

fn head(success: bool, status: &str, content_length: Option<u64>) -> ResponseHead {
    ResponseHead {
        success,
        status: status.to_string(),
        content_length,
        etag: Some("\"abc\"".to_string()),
        last_modified: None,
    }
}

fn downloader() -> Downloader {
    Downloader::new(Config::from_values(None, None, None, "w".to_string(), None, Some("3".to_string()), None, Some("30".to_string())))
}

#[test]
fn a_url_is_hashed_with_sha256() {
    assert_eq!(
        Downloader::hash_url("https://example.com/list.txt"),
        "2903a3aa42833ffa3377e505b3ba31e4594d7352c01240f8c912a7dea8c6cc6b"
    );
    assert_eq!(
        Downloader::hash_url(""),
        "e3b0c44298fc1c149afbf4c8996fb92427ae41e4649b934ca495991b7852b855"
    );
}

#[test]
fn the_configuration_names_sources() {
    let content = "# sources\n\nhttps://a.example/x.txt|First|ads\n  https://b.example/y.txt | Second \nhttps://c.example/z.txt\nnot a url|Name\nhttps://a.example/x.txt|Again|other\nhttps://d.example/w|N|c|extra\nmailto:me|Mail\n";
    let sources = Downloader::parse_config(content);
    let rows: Vec<(String, String, Option<String>)> = sources
        .into_iter()
        .map(|s| (s.url, s.name, s.category))
        .collect();
    assert_eq!(
        rows,
        vec![
            ("https://a.example/x.txt".to_string(), "First".to_string(), Some("ads".to_string())),
            ("https://b.example/y.txt".to_string(), "Second".to_string(), None),
            ("https://c.example/z.txt".to_string(), "c.example".to_string(), None),
            ("https://d.example/w".to_string(), "N".to_string(), Some("c".to_string())),
            ("mailto:me".to_string(), "Mail".to_string(), None),
        ]
    );
    assert!(Downloader::parse_config("").is_empty());
    assert!(Downloader::parse_config("# nothing\n\n   \n").is_empty());
    let nameless = Downloader::parse_config("data:text/plain,x");
    assert_eq!(nameless[0].name, "Unknown");
    let empty_fields = Downloader::parse_config("https://a.example/||");
    assert_eq!(empty_fields[0].name, "");
    assert_eq!(empty_fields[0].category, Some("".to_string()));
}

#[test]
fn sources_survive_rewriting() {
    let sources = Downloader::parse_config("https://a.example/x|First|ads\nhttps://b.example/y|Second\nhttps://c.example/z");
    let written: Vec<String> = sources
        .iter()
        .map(|s| match &s.category {
            Some(c) => format!("{}|{}|{}", s.url, s.name, c),
            None => format!("{}|{}", s.url, s.name),
        })
        .collect();
    let again = Downloader::parse_config(&written.join("\n"));
    assert_eq!(again.len(), sources.len());
    for (a, b) in again.iter().zip(sources.iter()) {
        assert_eq!((&a.url, &a.name, &a.category), (&b.url, &b.name, &b.category));
    }
}

#[test]
fn a_cache_hit_ends_the_download() {
    let pending = Downloader::download_source(&source("https://a.example/x"));
    assert_eq!(pending.url_hash, Downloader::hash_url("https://a.example/x"));
    match pending.resolve(CacheLookup::Hit(vec![1, 2, 3]), 12) {
        LookupStep::Done(r) => {
            assert!(r.cache_hit);
            assert_eq!(r.content, Some(vec![1, 2, 3]));
            assert_eq!(r.bytes_downloaded, 0);
            assert_eq!(r.download_time_ms, 12);
            assert_eq!(r.error, None);
            assert_eq!(r.previous_domain_count, None);
            assert_eq!(r.source.url, "https://a.example/x");
        }
        LookupStep::Fetch(_) => panic!("the cache had the bytes"),
    }
    for lookup in [CacheLookup::Miss, CacheLookup::Failed("down".to_string())] {
        match Downloader::download_source(&source("https://a.example/x")).resolve(lookup, 1) {
            LookupStep::Fetch(f) => assert_eq!(f.source.url, "https://a.example/x"),
            LookupStep::Done(_) => panic!("the cache had nothing"),
        }
    }
}

#[test]
fn the_head_of_a_response_can_fail_the_source() {
    let error = fetch("https://a.example/x").response(head(false, "500 Internal Server Error", None)).err();
    assert_eq!(error, Some("HTTP 500 Internal Server Error for https://a.example/x".to_string()));
    let error = fetch("https://a.example/x").response(head(true, "200 OK", Some(MAX_SOURCE_SIZE_BYTES + 1))).err();
    assert_eq!(error, Some("Source file too large: 104857601 bytes (max 104857600 bytes)".to_string()));
    assert!(fetch("https://a.example/x").response(head(true, "200 OK", Some(MAX_SOURCE_SIZE_BYTES))).is_ok());
    assert!(fetch("https://a.example/x").response(head(true, "200 OK", None)).is_ok());
    let failed = fetch("https://a.example/x").request_failed(7);
    assert_eq!(failed.error, Some("Failed to fetch https://a.example/x".to_string()));
    assert_eq!(failed.content, None);
    assert_eq!(failed.download_time_ms, 7);
}

#[test]
fn a_source_of_exactly_the_limit_is_accepted_and_one_byte_more_is_not() {
    assert_eq!(MAX_SOURCE_SIZE_BYTES, 100 * 1024 * 1024);
    let chunk = vec![b'a'; 1024 * 1024];
    let mut reader = fetch("https://a.example/x").response(head(true, "200 OK", None)).unwrap();
    for _ in 0..100 {
        reader = reader.push_chunk(&chunk).unwrap();
    }
    let reader = reader.push_chunk(&[]).unwrap();
    let error = reader.push_chunk(&[b'b']).err();
    assert_eq!(
        error,
        Some("Source file exceeds size limit during download (max 104857600 bytes)".to_string())
    );

    let mut reader = fetch("https://a.example/x").response(head(true, "200 OK", None)).unwrap();
    for _ in 0..100 {
        reader = reader.push_chunk(&chunk).unwrap();
    }
    let request = reader.finish();
    assert_eq!(request.content.len() as u64, MAX_SOURCE_SIZE_BYTES);
    assert_eq!(request.domain_count, 0);
}

#[test]
fn a_body_becomes_a_result() {
    let reader = fetch("https://a.example/x").response(head(true, "200 OK", Some(10))).unwrap();
    let reader = reader.push_chunk(b"0.0.0.0 a.com\n").unwrap();
    let reader = reader.push_chunk(b"0.0.0.0 b.com\nlast").unwrap();
    let request = reader.finish();
    assert_eq!(request.content, b"0.0.0.0 a.com\n0.0.0.0 b.com\nlast".to_vec());
    assert_eq!(request.domain_count, 2);
    assert_eq!(request.etag, Some("\"abc\"".to_string()));
    assert_eq!(request.last_modified, None);
    assert_eq!(request.url_hash, Downloader::hash_url("https://a.example/x"));
    assert!(request.warnings.is_empty());
    let result = request.stored(Ok(()), 40);
    assert!(!result.cache_hit);
    assert_eq!(result.bytes_downloaded, 32);
    assert_eq!(result.download_time_ms, 40);
    assert_eq!(result.error, None);
    assert_eq!(result.content.map(|c| c.len()), Some(32));

    let empty = fetch("https://a.example/x").response(head(true, "200 OK", None)).unwrap().finish();
    assert_eq!(empty.warnings, vec!["Downloaded empty file"]);
    let failed = empty.stored(Err("write failed".to_string()), 3);
    assert_eq!(failed.error, Some("write failed".to_string()));
    assert_eq!(failed.content, None);
    assert!(failed.warnings.is_empty());

    let reader = fetch("https://a.example/x").response(head(true, "200 OK", None)).unwrap();
    assert_eq!(reader.read_failed(5).error, Some("Error reading response chunk".to_string()));
    let reader = fetch("https://a.example/x").response(head(true, "200 OK", None)).unwrap();
    assert_eq!(reader.failed("too big".to_string(), 5).error, Some("too big".to_string()));
}

fn result_for(url: &str, time: u64) -> DownloadResult {
    DownloadResult::failed(source(url), Downloader::hash_url(url), "x".to_string(), time)
}

#[test]
fn results_come_in_the_order_of_the_sources() {
    let sources = vec![source("https://a/0"), source("https://a/1"), source("https://a/2")];
    let completed = vec![
        (2, result_for("https://a/2", 20)),
        (0, result_for("https://a/0", 0)),
        (1, result_for("https://a/1", 10)),
    ];
    let ordered = Downloader::download_sources(&sources, completed).unwrap();
    assert_eq!(ordered.len(), 3);
    for (i, r) in ordered.iter().enumerate() {
        assert_eq!(r.source.url, sources[i].url);
        assert_eq!(r.download_time_ms, 10 * i as u64);
    }
    assert_eq!(Downloader::download_sources(&Vec::new(), Vec::new()).map(|v| v.len()), Some(0));
}

#[test]
fn a_batch_that_is_not_whole_has_no_order() {
    let sources = vec![source("https://a/0"), source("https://a/1")];
    let missing = vec![(0, result_for("https://a/0", 0))];
    assert!(Downloader::download_sources(&sources, missing).is_none());
    let twice = vec![(0, result_for("https://a/0", 0)), (0, result_for("https://a/0", 0))];
    assert!(Downloader::download_sources(&sources, twice).is_none());
    let beyond = vec![(0, result_for("https://a/0", 0)), (2, result_for("https://a/1", 0))];
    assert!(Downloader::download_sources(&sources, beyond).is_none());
    let swapped = vec![(1, result_for("https://a/0", 0)), (0, result_for("https://a/1", 0))];
    assert!(Downloader::download_sources(&sources, swapped).is_none());
}

#[test]
fn a_started_source_is_downloading() {
    let p = Downloader::started_progress(&source("https://a.example/x"), "2024-01-01T00:00:00.000000".to_string());
    assert_eq!(p.id, Downloader::hash_url("https://a.example/x"));
    assert_eq!(p.name, "list");
    assert_eq!(p.url, "https://a.example/x");
    assert_eq!(p.status, SourceStatus::Downloading);
    assert_eq!(p.started_at, Some("2024-01-01T00:00:00.000000".to_string()));
    assert_eq!(p.completed_at, None);
    assert_eq!(p.cache_hit, None);
}

#[test]
fn all_sources_are_cached_only_if_each_is() {
    let d = downloader();
    assert_eq!(d.max_concurrent_downloads(), 3);
    assert_eq!(d.cache_ttl_days(), 30);
    assert_eq!(d.http_timeout_secs(), 60);
    let mut cache = CacheStore::new();
    let repo = CacheRepository::new();
    let now = 1_700_000_000_000;
    let sources = vec![source("https://a/0"), source("https://a/1")];
    assert!(d.check_all_cached(&cache, &Vec::new(), now));
    assert!(!d.check_all_cached(&cache, &sources, now));
    for s in &sources[..1] {
        let hash = Downloader::hash_url(&s.url);
        repo.store(&mut cache, StoredContent { url_hash: &hash, url: &s.url, content: b"x", etag: None, last_modified: None, domain_count: 0 }, now);
    }
    assert!(!d.check_all_cached(&cache, &sources, now));
    let hash = Downloader::hash_url("https://a/1");
    repo.store(&mut cache, StoredContent { url_hash: &hash, url: "https://a/1", content: b"y", etag: None, last_modified: None, domain_count: 0 }, now);
    assert!(d.check_all_cached(&cache, &sources, now));
    assert!(!d.check_all_cached(&cache, &sources, now + 8 * 86_400_000));

    d.update_domain_count(&mut cache, &hash, 17, now + 5);
    assert_eq!(cache.entries[1].stats.domain_count, 17);
    assert_eq!(cache.entries[1].updated_at, Some(now + 5));
    assert_eq!(d.cleanup_cache(&mut cache, now + 31 * 86_400_000), 2);
    assert!(cache.entries.is_empty());
}
