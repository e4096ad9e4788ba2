use blocklist_worker::config::Config;
use blocklist_worker::db::job::{Job, JobRepository, JobStatus, JobStore, JobType};
use blocklist_worker::db::progress::{JobProgress, JobStage, OutputFile, ResultKind, SourceStatus};
use blocklist_worker::db::user::MatchedUser;
use blocklist_worker::downloader::{DownloadResult, Downloader, Source};
use blocklist_worker::extractor::DomainExtractor;
use blocklist_worker::pipeline::{BuildPlan, ConfigStep};
use blocklist_worker::processor::{CategoryDomains, JobProcessor};
use blocklist_worker::run::{
    CopyStep, DownloadJob, DownloadStep, ExtractStep, GenerateStep, MatchStep, SkipCheck,
    SkipStep, WhitelistStep,
};
use blocklist_worker::stages::GenerationPlan;
use blocklist_worker::worker::{AfterClaim, Beat, ClaimOutcome, Poll, Worker, ERROR_WAIT_SECS, IDLE_WAIT_SECS};

fn strings(v: &[&str]) -> Vec<String> {
    v.iter().map(|s| s.to_string()).collect()
}

fn plan(blocklists: &str, whitelist: &str) -> BuildPlan {
    match JobProcessor::new().process_job(Ok(blocklists.to_string()), Ok(whitelist.to_string())) {
        ConfigStep::Plan(p) => p,
        ConfigStep::Fail(e) => panic!("{:?}", e),
    }
}

fn download_job(blocklists: &str) -> DownloadJob {
    match plan(blocklists, "").after_stored_hash(None) {
        SkipCheck::Search(search) => match search.resolve(None) {
            MatchStep::Build(job) => job,
            MatchStep::Copy(_) => panic!("nothing was found"),
        },
        SkipCheck::CheckCache(_) => panic!("no hash is stored"),
    }
}

fn fetched(source: &Source, content: &[u8]) -> DownloadResult {
    DownloadResult::fetched(source.clone(), Downloader::hash_url(&source.url), content.to_vec(), Vec::new(), 5)
}

fn failed(source: &Source, error: &str) -> DownloadResult {
    DownloadResult::failed(source.clone(), Downloader::hash_url(&source.url), error.to_string(), 5)
}

fn files_of(plan: &GenerationPlan) -> Vec<OutputFile> {
    let mut files = Vec::new();
    let mut lists: Vec<(String, usize)> = plan
        .categories
        .iter()
        .map(|c| (c.category.clone().unwrap_or("uncategorized".to_string()), c.domains.len()))
        .collect();
    lists.push(("all_domains".to_string(), plan.all_domains.len()));
    for (name, count) in lists {
        for format in ["hosts", "plain", "adblock"] {
            files.push(OutputFile {
                name: format!("{}_{}.txt.gz", name, format),
                format: format.to_string(),
                size_bytes: 10 * count as u64,
                domain_count: count as u64,
            });
        }
    }
    files
}

/// Runs a build from its downloads to its end.
fn build(blocklists: &str, whitelist: &str, contents: Vec<Result<&[u8], &str>>) -> (GenerateStep, GenerationPlan, JobProgress) {
    let job = download_job(blocklists);
    let mut progress = job.begin("t0".to_string());
    let results: Vec<DownloadResult> = job
        .sources()
        .iter()
        .zip(contents)
        .map(|(s, c)| match c {
            Ok(bytes) => fetched(s, bytes),
            Err(e) => failed(s, e),
        })
        .collect();
    let extract = match job.resolve(results, &mut progress) {
        DownloadStep::Extract(e) => e,
        DownloadStep::Fail(e) => panic!("{:?}", e),
    };
    let (whitelist_job, updates) = match extract.resolve(&DomainExtractor::new(), &mut progress) {
        ExtractStep::Whitelist(w, u) => (w, u),
        ExtractStep::Fail(e, _) => panic!("{:?}", e),
    };
    assert!(!updates.is_empty());
    whitelist_job.begin(&mut progress, "t1".to_string());
    assert_eq!(progress.stage, JobStage::Whitelist);
    let (generate, plan) = match whitelist_job.resolve(Ok(whitelist.to_string()), &mut progress) {
        WhitelistStep::Generate(g, p) => (g, p),
        WhitelistStep::Abort(e) => panic!("{}", e),
    };
    generate.begin(&mut progress, "t2".to_string());
    assert_eq!(progress.stage, JobStage::Generation);
    let step = generate.resolve(Ok(files_of(&plan)), &mut progress, "t3".to_string(), 1000);
    (step, plan, progress)
}

#[test]
fn happy_path() {
    let (step, plan, progress) = build(
        "https://a/x\nhttps://b/y\n",
        "",
        vec![Ok(b"0.0.0.0 ads.example.com\n0.0.0.0 ads.example.com\n"), Ok(b"||tracker.example.com^\n")],
    );
    assert_eq!(plan.all_domains, strings(&["ads.example.com", "tracker.example.com"]));
    assert_eq!(plan.categories.len(), 1);
    assert_eq!(plan.categories[0].category, None);
    assert_eq!(plan.categories[0].domains, plan.all_domains);
    assert_eq!(progress.stage, JobStage::Completed);
    let commit = match step {
        GenerateStep::Commit(c) => c,
        GenerateStep::Abort(e) => panic!("{}", e),
    };
    let r = &commit.result;
    assert_eq!(r.kind(), ResultKind::Success);
    assert_eq!((r.sources_processed, r.sources_failed, r.total_domains, r.unique_domains, r.whitelisted_removed), (2, 0, 3, 2, 0));
    let combined: Vec<&str> = r.output_files.iter().filter(|f| f.name.starts_with("all_domains_")).map(|f| f.name.as_str()).collect();
    assert_eq!(combined, vec!["all_domains_hosts.txt.gz", "all_domains_plain.txt.gz", "all_domains_adblock.txt.gz"]);
    assert!(r.output_files.iter().all(|f| f.domain_count == 2));
    let o = &commit.outcome;
    assert_eq!((o.total_domains, o.total_output_size), (2, 120));
    assert_eq!(o.config_hash, JobProcessor::compute_config_hash("https://a/x\nhttps://b/y\n", ""));
    assert_eq!(o.config_fingerprint, JobProcessor::compute_config_fingerprint("https://a/x\nhttps://b/y\n", ""));
    let lists: Vec<(&str, u64, i64, bool)> = o.lists.iter().map(|l| (l.name.as_str(), l.domain_count, l.last_updated, l.is_public)).collect();
    assert_eq!(lists, vec![("uncategorized", 2, 1000, true), ("all_domains", 2, 1000, true)]);
}

#[test]
fn self_match_skip() {
    let blocklists = "https://a/x\nhttps://b/y\n";
    let stored = JobProcessor::compute_config_hash(blocklists, "");
    let check = match plan(blocklists, "").after_stored_hash(Some(stored.clone())) {
        SkipCheck::CheckCache(c) => c,
        SkipCheck::Search(_) => panic!("the configuration is unchanged"),
    };
    assert_eq!(check.sources().len(), 2);
    match check.resolve(true) {
        SkipStep::Skip(reason) => assert!(reason.contains("No changes detected")),
        SkipStep::Search(_) => panic!("everything is cached"),
    }
    let check = match plan(blocklists, "").after_stored_hash(Some(stored)) {
        SkipCheck::CheckCache(c) => c,
        SkipCheck::Search(_) => panic!("the configuration is unchanged"),
    };
    assert!(matches!(check.resolve(false), SkipStep::Search(_)));
    assert!(matches!(plan(blocklists, "x.com").after_stored_hash(Some("stale".to_string())), SkipCheck::Search(_)));
}

#[test]
fn cross_tenant_copy() {
    let alice = "https://a/x|First\nhttps://b/y|Second\n";
    let bob = "https://b/y|second\n# same lists\nhttps://a/x/|FIRST\n";
    let search = match plan(bob, "").after_stored_hash(None) {
        SkipCheck::Search(s) => s,
        SkipCheck::CheckCache(_) => panic!("no hash is stored"),
    };
    assert_eq!(search.fingerprint(), &JobProcessor::compute_config_fingerprint(alice, ""));
    let matched = MatchedUser { username: "alice".to_string(), lists: Vec::new(), total_domains: 2, total_output_size: 60 };
    let copy = match search.resolve(Some(matched)) {
        MatchStep::Copy(c) => c,
        MatchStep::Build(_) => panic!("alice has built this"),
    };
    assert_eq!(copy.source().username, "alice");
    let copied: Vec<OutputFile> = ["hosts", "plain", "adblock"]
        .iter()
        .filter_map(|f| JobProcessor::describe_copied_file(&format!("all_domains_{}.txt.gz", f), 20, &copy.source().lists))
        .collect();
    match copy.resolve(Ok(copied), None, 2000) {
        CopyStep::Done(outcome, plan) => {
            assert_eq!(outcome.result.kind(), ResultKind::Copied);
            assert_eq!(outcome.result.copied_from, Some("alice".to_string()));
            assert_eq!(outcome.result.output_files.len(), 3);
            assert_eq!((outcome.unique_domains, outcome.total_output_size), (0, 60));
            assert_eq!(outcome.progress.stage, JobStage::Completed);
            assert_eq!(plan.config_hash, JobProcessor::compute_config_hash(bob, ""));
        }
        CopyStep::Build(_) => panic!("the copy went well"),
    }
}

#[test]
fn a_failed_copy_falls_through_to_a_build() {
    let search = match plan("https://a/x\n", "").after_stored_hash(None) {
        SkipCheck::Search(s) => s,
        SkipCheck::CheckCache(_) => panic!("no hash is stored"),
    };
    let matched = MatchedUser { username: "alice".to_string(), lists: Vec::new(), total_domains: 2, total_output_size: 60 };
    match search.resolve(Some(matched)) {
        MatchStep::Copy(c) => match c.resolve(Err("disk full".to_string()), None, 1) {
            CopyStep::Build(job) => assert_eq!(job.sources().len(), 1),
            CopyStep::Done(..) => panic!("the copy failed"),
        },
        MatchStep::Build(_) => panic!("alice has built this"),
    }
}

#[test]
fn partial_failure() {
    let (step, _, progress) = build(
        "https://a/x\nhttps://b/y\n",
        "",
        vec![Err("HTTP 500 Internal Server Error for https://a/x"), Ok(b"0.0.0.0 one.example.com\n")],
    );
    let commit = match step {
        GenerateStep::Commit(c) => c,
        GenerateStep::Abort(e) => panic!("{}", e),
    };
    assert_eq!((commit.result.sources_processed, commit.result.sources_failed, commit.result.unique_domains), (1, 1, 1));
    assert_eq!(commit.result.kind(), ResultKind::Success);
    assert_eq!(progress.sources[0].status, SourceStatus::Failed);
    assert_eq!(progress.sources[0].error.as_deref(), Some("HTTP 500 Internal Server Error for https://a/x"));
    assert_eq!(progress.sources[1].status, SourceStatus::Completed);
    assert_eq!(progress.sources[1].domain_count, Some(1));
}

#[test]
fn a_job_whose_downloads_all_fail_fails() {
    let job = download_job("https://a/x\nhttps://b/y\n");
    let mut progress = job.begin("t".to_string());
    let results = job.sources().iter().map(|s| failed(s, "timeout")).collect();
    match job.resolve(results, &mut progress) {
        DownloadStep::Fail(errors) => assert_eq!(errors, strings(&["All source downloads failed"])),
        DownloadStep::Extract(_) => panic!("nothing was downloaded"),
    }
    assert_eq!(progress.processed_sources, 2);
}

#[test]
fn a_job_without_domains_fails_before_the_whitelist() {
    let job = download_job("https://a/x\n");
    let mut progress = job.begin("t".to_string());
    let results = job.sources().iter().map(|s| fetched(s, b"# nothing\nnot a domain\n")).collect();
    let extract = match job.resolve(results, &mut progress) {
        DownloadStep::Extract(e) => e,
        DownloadStep::Fail(e) => panic!("{:?}", e),
    };
    match extract.resolve(&DomainExtractor::new(), &mut progress) {
        ExtractStep::Fail(errors, updates) => {
            assert_eq!(errors, strings(&["No domains extracted"]));
            assert_eq!(updates.len(), 1);
            assert_eq!(updates[0].domain_count, 0);
        }
        ExtractStep::Whitelist(..) => panic!("there are no domains"),
    }
}

#[test]
fn a_whitelist_that_removes_everything_leaves_no_category() {
    let (step, plan, progress) = build(
        "https://a/x|A|ads\nhttps://b/y|B|trackers\n",
        "@@example.com",
        vec![Ok(b"0.0.0.0 ads.example.com\n"), Ok(b"||tracker.example.com^\n")],
    );
    assert!(plan.categories.is_empty());
    assert!(plan.all_domains.is_empty());
    let w = progress.whitelist.clone().unwrap();
    assert_eq!((w.domains_before, w.domains_after, w.total_removed, w.processing), (2, 0, 2, false));
    assert_eq!(w.patterns.len(), 1);
    assert_eq!((w.patterns[0].pattern.as_str(), w.patterns[0].match_count), ("@@example.com", 2));
    let commit = match step {
        GenerateStep::Commit(c) => c,
        GenerateStep::Abort(e) => panic!("{}", e),
    };
    assert_eq!((commit.result.whitelisted_removed, commit.result.unique_domains, commit.result.total_domains), (2, 0, 2));
    let mut domains = CategoryDomains::new();
    domains.add(Some("ads".to_string()), strings(&["ads.example.com"]));
    let (left, removed) = JobProcessor::whitelist_stage("@@example.com", domains, &mut JobProgress::default());
    assert!(left.is_empty());
    assert_eq!((left.category_count(), removed), (0, 1));
}

#[test]
fn the_combined_list_leaves_out_one_category() {
    let mut domains = CategoryDomains::new();
    domains.add(Some("nsfw".to_string()), strings(&["x.example.com", "shared.example.com"]));
    domains.add(Some("ads".to_string()), strings(&["b.example.com", "a.example.com", "shared.example.com"]));
    domains.add(None, strings(&["c.example.com"]));
    let plan = JobProcessor::generation_stage(domains);
    let lists: Vec<(Option<String>, Vec<String>)> = plan.categories.into_iter().map(|c| (c.category, c.domains)).collect();
    assert_eq!(
        lists,
        vec![
            (Some("nsfw".to_string()), strings(&["shared.example.com", "x.example.com"])),
            (Some("ads".to_string()), strings(&["a.example.com", "b.example.com", "shared.example.com"])),
            (None, strings(&["c.example.com"])),
        ]
    );
    assert_eq!(plan.all_domains, strings(&["a.example.com", "b.example.com", "c.example.com", "shared.example.com"]));
}

#[test]
fn errors_of_the_outside_give_the_job_up() {
    let job = download_job("https://a/x\n");
    let mut progress = job.begin("t".to_string());
    let results = job.sources().iter().map(|s| fetched(s, b"a.example.com\n")).collect();
    let extract = match job.resolve(results, &mut progress) {
        DownloadStep::Extract(e) => e,
        DownloadStep::Fail(e) => panic!("{:?}", e),
    };
    let whitelist_job = match extract.resolve(&DomainExtractor::new(), &mut progress) {
        ExtractStep::Whitelist(w, _) => w,
        ExtractStep::Fail(e, _) => panic!("{:?}", e),
    };
    match whitelist_job.resolve(Err("User not found: zed".to_string()), &mut progress) {
        WhitelistStep::Abort(e) => assert_eq!(e, "User not found: zed"),
        WhitelistStep::Generate(..) => panic!("there is no whitelist"),
    }

    let (step, _, _) = build("https://a/x\n", "", vec![Ok(b"a.example.com\n")]);
    assert!(matches!(step, GenerateStep::Commit(_)));
    let job = download_job("https://a/x\n");
    let mut progress = job.begin("t".to_string());
    let results = job.sources().iter().map(|s| fetched(s, b"a.example.com\n")).collect();
    let DownloadStep::Extract(extract) = job.resolve(results, &mut progress) else { panic!() };
    let ExtractStep::Whitelist(w, _) = extract.resolve(&DomainExtractor::new(), &mut progress) else { panic!() };
    let WhitelistStep::Generate(g, _) = w.resolve(Ok(String::new()), &mut progress) else { panic!() };
    match g.resolve(Err("disk full".to_string()), &mut progress, "t".to_string(), 1) {
        GenerateStep::Abort(e) => assert_eq!(e, "disk full"),
        GenerateStep::Commit(_) => panic!("nothing was written"),
    }
    assert_ne!(progress.stage, JobStage::Completed);
}

#[test]
fn the_lists_of_a_build_are_those_of_its_hosts_files() {
    let files = vec![
        OutputFile { name: "ads_hosts.txt.gz".to_string(), format: "hosts".to_string(), size_bytes: 1, domain_count: 3 },
        OutputFile { name: "ads_plain.txt.gz".to_string(), format: "plain".to_string(), size_bytes: 1, domain_count: 99 },
        OutputFile { name: "my_list_hosts.txt.gz".to_string(), format: "hosts".to_string(), size_bytes: 1, domain_count: 4 },
        OutputFile { name: "all_domains_hosts.txt.gz".to_string(), format: "hosts".to_string(), size_bytes: 1, domain_count: 7 },
        OutputFile { name: "ads_hosts.txt.gz".to_string(), format: "hosts".to_string(), size_bytes: 1, domain_count: 5 },
    ];
    let lists = JobProcessor::build_lists(&files, 7, 9);
    let rows: Vec<(&str, u64, i64)> = lists.iter().map(|l| (l.name.as_str(), l.domain_count, l.last_updated)).collect();
    assert_eq!(rows, vec![("ads", 5, 9), ("my", 4, 9), ("all_domains", 7, 9)]);
    assert!(lists.iter().all(|l| l.is_public && l.formats == strings(&["hosts", "plain", "adblock"])));
    let result = JobProcessor::job_result(&Vec::new(), &JobProgress::default(), files, 2);
    assert_eq!((result.unique_domains, result.whitelisted_removed, result.total_domains), (7, 2, 0));
    let result = JobProcessor::job_result(&Vec::new(), &JobProgress::default(), Vec::new(), 0);
    assert_eq!(result.unique_domains, 0);
}

fn worker() -> Worker {
    Worker::new(Config::from_values(None, None, None, "w1".to_string(), Some("3".to_string()), None, None, None))
}

#[test]
fn claim_race() {
    let mut store = JobStore::new();
    store.insert(Job {
        id: "k".to_string(),
        job_id: "j".to_string(),
        user_id: None,
        username: "alice".to_string(),
        job_type: JobType::Scheduled,
        status: JobStatus::Queued,
        priority: 1,
        progress: JobProgress::default(),
        result: None,
        started_at: None,
        completed_at: None,
        created_at: 1,
        worker_id: None,
        claimed_at: None,
        heartbeat_at: None,
        read: false,
    });
    let mut first = worker();
    let mut second = worker();
    let outcome = |store: &mut JobStore, id: &str| match JobRepository::new(id.to_string()).claim_next(store, 5) {
        Some(j) => ClaimOutcome::Job { id: j.id.clone(), job_id: j.job_id.clone(), username: j.username.clone() },
        None => ClaimOutcome::Empty,
    };
    let a = first.on_claim(outcome(&mut store, "w1"));
    let b = second.on_claim(outcome(&mut store, "w2"));
    assert!(matches!(a, AfterClaim::Process { ref job_id, .. } if job_id == "j"));
    assert!(matches!(b, AfterClaim::Wait(s) if s == IDLE_WAIT_SECS));
    assert_eq!(store.jobs()[0].worker_id, Some("w1".to_string()));
}

#[test]
fn the_worker_has_one_job_in_hand_at_a_time() {
    let mut w = worker();
    assert_eq!(w.worker_id(), "w1");
    assert_eq!(w.heartbeat_interval_secs(), 3);
    assert!(matches!(w.poll(false), Poll::Claim));
    assert!(matches!(w.heartbeat(false), Beat::Rest));
    assert!(matches!(w.on_claim(ClaimOutcome::Empty), AfterClaim::Wait(2)));
    assert!(matches!(w.on_claim(ClaimOutcome::Failed("down".to_string())), AfterClaim::Wait(s) if s == ERROR_WAIT_SECS));
    let next = w.on_claim(ClaimOutcome::Job { id: "k".to_string(), job_id: "j".to_string(), username: "alice".to_string() });
    assert!(matches!(next, AfterClaim::Process { ref id, ref job_id, ref username } if id == "k" && job_id == "j" && username == "alice"));
    assert!(matches!(w.heartbeat(false), Beat::Send(ref j) if j == "j"));
    assert!(matches!(w.heartbeat(true), Beat::Stop));
    assert!(matches!(w.poll(true), Poll::Shutdown { release: Some(ref j) } if j == "j"));
    assert!(w.on_processed("k".to_string(), Ok(())).is_none());
    assert!(matches!(w.heartbeat(false), Beat::Rest));
    assert!(matches!(w.poll(true), Poll::Shutdown { release: None }));
    w.on_claim(ClaimOutcome::Job { id: "k2".to_string(), job_id: "j2".to_string(), username: "bob".to_string() });
    let report = w.on_processed("k2".to_string(), Err("database is down".to_string())).unwrap();
    assert_eq!((report.id.as_str(), report.errors), ("k2", strings(&["database is down"])));
    assert!(matches!(w.heartbeat(false), Beat::Rest));
}
