use blocklist_worker::db::progress::{JobProgress, JobResult, JobStage, OutputFile, ResultKind, SourceStatus};
use blocklist_worker::db::user::{ListMetadata, MatchedUser};
use blocklist_worker::downloader::{DownloadResult, Downloader, Source};
use blocklist_worker::extractor::DomainExtractor;
use blocklist_worker::pipeline::{
    apply_known_counts, copied_lists, first_count, first_named, formats, lists_from_files,
    total_size, BuildPlan, ConfigStep,
};
use blocklist_worker::processor::{sort_by_url, CategoryDomains, JobProcessor};

fn strings(v: &[&str]) -> Vec<String> {
    v.iter().map(|s| s.to_string()).collect()
}

fn file(name: &str, format: &str, size: u64, count: u64) -> OutputFile {
    OutputFile { name: name.to_string(), format: format.to_string(), size_bytes: size, domain_count: count }
}

fn source(url: &str, name: &str, category: Option<&str>) -> Source {
    Source { name: name.to_string(), url: url.to_string(), category: category.map(|c| c.to_string()) }
}

fn fetched(url: &str, category: Option<&str>, content: &[u8]) -> DownloadResult {
    DownloadResult::fetched(source(url, "n", category), Downloader::hash_url(url), content.to_vec(), Vec::new(), 5)
}

fn failed(url: &str, error: &str) -> DownloadResult {
    DownloadResult::failed(source(url, "n", None), Downloader::hash_url(url), error.to_string(), 5)
}

#[test]
fn the_hash_of_a_configuration_is_that_of_its_texts() {
    assert_eq!(
        JobProcessor::compute_config_hash("https://a/x\n", "example.com\n"),
        "d9e35b6057197375e7de024df593acee1ba670752b9bed7ca7bc979894a6b079"
    );
    assert_ne!(
        JobProcessor::compute_config_hash("https://a/x\n", "example.com\n"),
        JobProcessor::compute_config_hash("https://a/x", "example.com\n")
    );
}

#[test]
fn the_fingerprint_is_the_hash_of_the_canonical_form() {
    assert_eq!(
        JobProcessor::compute_config_fingerprint("https://a/x", ""),
        "1b179a7ae65cdc3fa16c2088effceca258d6fbc6e5ee07528ad0ad24891b2f86"
    );
    assert_eq!(
        JobProcessor::compute_config_fingerprint(
            "https://b/y|Second\nhttps://a/x|First|ADS\n",
            "example.com\n@@google.com\n"
        ),
        "d2940d0332f505a1e12db2ba111f34a1a1c32e27016084e890639ff95907dcb9"
    );
}

#[test]
fn the_fingerprint_does_not_change_with_order_comments_slashes_or_case() {
    let base = JobProcessor::compute_config_fingerprint(
        "https://a.example/x|First|ads\nhttps://b.example/y|Second\n",
        "example.com\n*.ads.com\n",
    );
    let variants = [
        ("https://b.example/y|Second\nhttps://a.example/x|First|ads\n", "example.com\n*.ads.com\n"),
        ("# my lists\nhttps://a.example/x|First|ads\n\n# more\nhttps://b.example/y|Second\n", "# allowed\nexample.com # mine\n\n*.ads.com\n"),
        ("https://a.example/x/|First|ads\nhttps://b.example/y///|Second\n", "example.com\n*.ads.com\n"),
        ("https://a.example/x|FIRST|Ads\nhttps://b.example/y|second\n", "example.com\n*.ads.com\n"),
        ("  https://a.example/x | First | ads \r\nhttps://b.example/y|Second\r\n", "  example.com  \r\n*.ads.com"),
    ];
    for (blocklists, whitelist) in variants {
        assert_eq!(JobProcessor::compute_config_fingerprint(blocklists, whitelist), base);
    }
    let different = [
        ("https://a.example/x|First|ads\n", "example.com\n*.ads.com\n"),
        ("https://a.example/x|First|ads\nhttps://b.example/y|Second\n", "*.ads.com\nexample.com\n"),
        ("https://a.example/x|First|ads\nhttps://b.example/y|Other\n", "example.com\n*.ads.com\n"),
        ("https://a.example/x|First\nhttps://b.example/y|Second\n", "example.com\n*.ads.com\n"),
    ];
    for (blocklists, whitelist) in different {
        assert_ne!(JobProcessor::compute_config_fingerprint(blocklists, whitelist), base);
    }
    assert_ne!(
        JobProcessor::compute_config_hash("https://b.example/y\nhttps://a.example/x", ""),
        JobProcessor::compute_config_hash("https://a.example/x\nhttps://b.example/y", "")
    );
}

#[test]
fn a_trailing_slash_can_change_the_order_of_two_sources() {
    let plain = JobProcessor::compute_config_fingerprint("https://a/x|n\nhttps://a/x-y|m\n", "");
    let slashed = JobProcessor::compute_config_fingerprint("https://a/x/|n\nhttps://a/x-y|m\n", "");
    assert_ne!(plain, slashed);
}

#[test]
fn sources_are_sorted_by_url_and_keep_their_order_where_urls_are_equal() {
    let sources = vec![
        source("https://b/", "1", None),
        source("https://a/", "2", None),
        source("https://b/", "3", None),
        source("https://B/", "4", None),
        source("https://a", "5", None),
    ];
    let names: Vec<String> = sort_by_url(&sources).into_iter().map(|s| s.name).collect();
    assert_eq!(names, strings(&["4", "5", "2", "1", "3"]));
    assert!(sort_by_url(&Vec::new()).is_empty());
}

#[test]
fn domains_are_kept_by_category() {
    let mut domains = CategoryDomains::new();
    assert!(domains.is_empty());
    assert_eq!((domains.category_count(), domains.total_count()), (0, 0));
    domains.add(Some("ads".to_string()), strings(&["a.com", "b.com"]));
    domains.add(None, strings(&["b.com", "c.com"]));
    domains.add(Some("ads".to_string()), strings(&["b.com", "d.com"]));
    domains.add(Some("empty".to_string()), Vec::new());
    assert!(!domains.is_empty());
    assert_eq!(domains.category_count(), 3);
    assert_eq!(domains.total_count(), 4);
    let all = domains.all_unique();
    for d in ["a.com", "b.com", "c.com", "d.com"] {
        assert!(all.contains(d));
    }
    assert_eq!(domains.find(&Some("ads".to_string())), Some(0));
    assert_eq!(domains.find(&None), Some(1));
    assert_eq!(domains.find(&Some("none".to_string())), None);
    let sizes: Vec<(Option<String>, usize)> = domains.buckets().iter().map(|b| (b.category.clone(), b.domains.len())).collect();
    assert_eq!(sizes, vec![(Some("ads".to_string()), 3), (None, 2), (Some("empty".to_string()), 0)]);
    let mut only_empty = CategoryDomains::new();
    only_empty.add(None, Vec::new());
    assert!(only_empty.is_empty());
    assert_eq!(only_empty.category_count(), 1);
}

#[test]
fn a_job_without_sources_fails() {
    let processor = JobProcessor::new();
    match processor.process_job(Ok("# nothing here\nnot a url\n".to_string()), Ok(String::new())) {
        ConfigStep::Fail(errors) => assert_eq!(errors, strings(&["No valid sources in config"])),
        ConfigStep::Plan(_) => panic!("there is no source"),
    }
    match processor.process_job(Ok(String::new()), Ok(String::new())) {
        ConfigStep::Fail(errors) => assert_eq!(errors, strings(&["No valid sources in config"])),
        ConfigStep::Plan(_) => panic!("there is no source"),
    }
    match processor.process_job(Err("User not found: zed".to_string()), Ok(String::new())) {
        ConfigStep::Fail(errors) => assert_eq!(errors, strings(&["Failed to load config: User not found: zed"])),
        ConfigStep::Plan(_) => panic!("there is no configuration"),
    }
}

#[test]
fn a_job_with_sources_has_a_plan() {
    let processor = JobProcessor::new();
    let blocklists = "https://a/x|A|ads\nhttps://b/y\n";
    match processor.process_job(Ok(blocklists.to_string()), Err("no whitelist".to_string())) {
        ConfigStep::Plan(plan) => {
            assert_eq!(plan.sources.len(), 2);
            assert_eq!(plan.config_hash, JobProcessor::compute_config_hash(blocklists, ""));
            assert_eq!(plan.config_fingerprint, JobProcessor::compute_config_fingerprint(blocklists, ""));
            assert!(plan.is_unchanged(&Some(JobProcessor::compute_config_hash(blocklists, ""))));
            assert!(!plan.is_unchanged(&Some("other".to_string())));
            assert!(!plan.is_unchanged(&None));
        }
        ConfigStep::Fail(e) => panic!("{:?}", e),
    }
}

#[test]
fn a_job_is_skipped_when_nothing_has_changed() {
    let reason = BuildPlan::skip_reason(true, true).unwrap();
    assert!(reason.contains("No changes detected"));
    assert_eq!(reason, "No changes detected since last build. All sources are cached and configuration unchanged.");
    assert_eq!(BuildPlan::skip_reason(true, false), None);
    assert_eq!(BuildPlan::skip_reason(false, true), None);
    assert_eq!(BuildPlan::skip_reason(false, false), None);
}

#[test]
fn copied_files_are_described_by_their_names() {
    let lists = vec![
        ListMetadata { name: "ads".to_string(), is_public: true, formats: formats(), domain_count: 7, last_updated: 1 },
        ListMetadata { name: "all_domains".to_string(), is_public: true, formats: formats(), domain_count: 9, last_updated: 1 },
    ];
    let f = JobProcessor::describe_copied_file("all_domains_hosts.txt.gz", 120, &lists).unwrap();
    assert_eq!((f.name.as_str(), f.format.as_str(), f.size_bytes, f.domain_count), ("all_domains_hosts.txt.gz", "hosts", 120, 9));
    let f = JobProcessor::describe_copied_file("ads_adblock.txt.gz", 5, &lists).unwrap();
    assert_eq!((f.format.as_str(), f.domain_count), ("adblock", 7));
    let f = JobProcessor::describe_copied_file("other.txt.gz", 5, &lists).unwrap();
    assert_eq!((f.format.as_str(), f.domain_count), ("unknown", 0));
    let f = JobProcessor::describe_copied_file("ads_plain.txt.gz.txt.gz", 5, &Vec::new()).unwrap();
    assert_eq!((f.format.as_str(), f.domain_count), ("plain", 0));
    assert!(JobProcessor::describe_copied_file("ads_hosts.txt", 5, &lists).is_none());
    assert!(JobProcessor::describe_copied_file("notes.gz", 5, &lists).is_none());
    assert!(JobProcessor::describe_copied_file("", 5, &lists).is_none());
}

#[test]
fn files_are_summed_and_counted() {
    let mut files = vec![file("ads_hosts.txt.gz", "hosts", 10, 0), file("all_domains_hosts.txt.gz", "hosts", 20, 0), file("all_domains_plain.txt.gz", "plain", 30, 0)];
    assert_eq!(total_size(&files), 60);
    assert_eq!(total_size(&Vec::new()), 0);
    assert_eq!(first_count(&files, "all_domains"), Some(0));
    assert_eq!(first_count(&files, "nsfw"), None);
    let known = vec![file("all_domains_hosts.txt.gz", "hosts", 1, 9), file("ads_hosts.txt.gz", "hosts", 1, 4), file("ads_hosts.txt.gz", "hosts", 1, 5)];
    apply_known_counts(&mut files, &known);
    let counts: Vec<u64> = files.iter().map(|f| f.domain_count).collect();
    assert_eq!(counts, vec![4, 9, 0]);
    assert_eq!(first_named(&files, "all_domains_plain.txt.gz"), Some(0));
    assert_eq!(first_named(&files, "missing"), None);
    let lists = lists_from_files(&files, 77);
    let rows: Vec<(String, u64, i64, bool, Vec<String>)> = lists.into_iter().map(|l| (l.name, l.domain_count, l.last_updated, l.is_public, l.formats)).collect();
    assert_eq!(rows, vec![("ads".to_string(), 4, 77, true, strings(&["hosts", "plain", "adblock"])), ("all_domains".to_string(), 9, 77, true, strings(&["hosts", "plain", "adblock"]))]);
    let copied = copied_lists(&vec![ListMetadata { name: "x".to_string(), is_public: false, formats: strings(&["hosts"]), domain_count: 3, last_updated: 1 }], 88);
    assert_eq!((copied[0].name.as_str(), copied[0].is_public, copied[0].last_updated, copied[0].domain_count), ("x", true, 88, 3));
    assert_eq!(copied[0].formats, strings(&["hosts"]));
}

#[test]
fn a_copy_takes_its_counts_from_the_build_that_was_copied() {
    let matched = MatchedUser { username: "alice".to_string(), lists: Vec::new(), total_domains: 99, total_output_size: 1 };
    let mut last = JobResult::success(2, 1, 10, 8, 3, vec![file("all_domains_hosts.txt.gz", "hosts", 1, 8)]);
    last.categories.push(blocklist_worker::db::progress::CategoryCount { category: "ads".to_string(), domains: 5 });
    let files = vec![file("all_domains_hosts.txt.gz", "hosts", 100, 0), file("all_domains_plain.txt.gz", "plain", 50, 0)];
    let out = JobProcessor::copied_outcome(matched, Some(last), files, 500);
    assert_eq!(out.result.kind(), ResultKind::Copied);
    assert_eq!(out.result.copied_from, Some("alice".to_string()));
    assert_eq!((out.result.sources_processed, out.result.sources_failed, out.result.total_domains, out.result.unique_domains, out.result.whitelisted_removed), (2, 1, 10, 8, 3));
    assert_eq!(out.result.categories.len(), 1);
    assert_eq!(out.result.output_files[0].domain_count, 8);
    assert_eq!((out.unique_domains, out.total_output_size), (8, 150));
    assert_eq!((out.progress.stage, out.progress.current_step.as_str(), out.progress.total_sources, out.progress.processed_sources), (JobStage::Completed, "completed", 3, 3));
    let names: Vec<(String, u64)> = out.lists.iter().map(|l| (l.name.clone(), l.domain_count)).collect();
    assert_eq!(names, vec![("all_domains".to_string(), 8)]);

    let matched = MatchedUser { username: "__default__".to_string(), lists: vec![ListMetadata { name: "ads".to_string(), is_public: false, formats: formats(), domain_count: 4, last_updated: 0 }], total_domains: 99, total_output_size: 1 };
    let out = JobProcessor::copied_outcome(matched, None, vec![file("ads_hosts.txt.gz", "hosts", 7, 4)], 600);
    assert_eq!((out.result.total_domains, out.result.unique_domains, out.result.sources_processed), (99, 99, 0));
    assert_eq!((out.unique_domains, out.total_output_size, out.progress.total_sources), (99, 7, 0));
    assert_eq!((out.lists[0].name.as_str(), out.lists[0].is_public, out.lists[0].last_updated), ("ads", true, 600));
}

#[test]
fn downloads_are_noted_in_the_progress() {
    let sources = vec![source("https://a/x", "A", None), source("https://b/y", "B", None)];
    let mut progress = JobProcessor::initial_progress(&sources, "t".to_string());
    assert_eq!((progress.stage, progress.total_sources, progress.processed_sources), (JobStage::Downloading, 2, 0));
    assert_eq!(progress.sources.len(), 2);
    assert_eq!(progress.sources[1].id, Downloader::hash_url("https://b/y"));
    assert_eq!((progress.sources[1].name.as_str(), progress.sources[1].status), ("B", SourceStatus::Pending));
    let mut second = fetched("https://b/y", None, b"0.0.0.0 a.com\n");
    second.warnings.push("slow".to_string());
    let results = vec![failed("https://a/x", "HTTP 500 Internal Server Error for https://a/x"), second];
    JobProcessor::download_stage(&mut progress, &results);
    assert_eq!(progress.processed_sources, 2);
    assert_eq!(progress.sources[0].status, SourceStatus::Failed);
    assert_eq!(progress.sources[0].error.as_deref(), Some("HTTP 500 Internal Server Error for https://a/x"));
    assert_eq!(progress.sources[0].cache_hit, Some(false));
    assert_eq!(progress.sources[1].status, SourceStatus::Completed);
    assert_eq!((progress.sources[1].bytes_downloaded, progress.sources[1].download_time_ms), (14, Some(5)));
    assert_eq!(progress.sources[1].warnings, strings(&["slow"]));
    assert!(!JobProcessor::all_failed(&results));
    assert!(JobProcessor::all_failed(&results[..1].iter().map(|_| failed("https://a/x", "e")).collect()));
    assert!(JobProcessor::all_failed(&Vec::new()));
    let mut short = JobProgress::default();
    JobProcessor::download_stage(&mut short, &results);
    assert_eq!((short.sources.len(), short.processed_sources), (0, 0));
}

#[test]
fn domains_are_extracted_into_the_category_of_their_source() {
    let extractor = DomainExtractor::new();
    let sources = vec![source("https://a/x", "A", Some("ads")), source("https://b/y", "B", None), source("https://c/z", "C", Some("ads")), source("https://d/w", "D", None)];
    let mut progress = JobProcessor::initial_progress(&sources, "t".to_string());
    let mut with_previous = fetched("https://c/z", Some("ads"), b"b.com\n||c.com^\nbad line\n\xff\xfe\n");
    with_previous.previous_domain_count = Some(5);
    let mut no_content = fetched("https://d/w", None, b"z.com");
    no_content.content = None;
    let results = vec![fetched("https://a/x", Some("ads"), b"0.0.0.0 a.com\n0.0.0.0 a.com\n0.0.0.0 b.com\n"), failed("https://b/y", "e"), with_previous, no_content];
    let (domains, updates) = JobProcessor::extraction_stage(&extractor, &results, &mut progress);
    assert_eq!(domains.category_count(), 1);
    assert_eq!(domains.total_count(), 3);
    for d in ["a.com", "b.com", "c.com"] {
        assert!(domains.all_unique().contains(d));
    }
    let noted: Vec<(Option<u64>, Option<i64>)> = progress.sources.iter().map(|s| (s.domain_count, s.domain_change)).collect();
    assert_eq!(noted, vec![(Some(3), None), (None, None), (Some(2), Some(-3)), (None, None)]);
    let sent: Vec<(String, u64)> = updates.into_iter().map(|u| (u.url_hash, u.domain_count)).collect();
    assert_eq!(sent, vec![(Downloader::hash_url("https://a/x"), 3), (Downloader::hash_url("https://c/z"), 2)]);
    assert_eq!(JobProcessor::extract_domains(&extractor, &b"A.com\nx\nb.com".to_vec()).len(), 2);
}
