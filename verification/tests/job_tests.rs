use blocklist_worker::db::job::{Job, JobRepository, JobStatus, JobStore, JobType};
use blocklist_worker::db::progress::{JobProgress, JobResult, JobStage, ResultKind};

fn job(id: &str, priority: i32, created_at: i64) -> Job {
    Job {
        id: format!("key-{}", id),
        job_id: id.to_string(),
        user_id: None,
        username: "alice".to_string(),
        job_type: JobType::Manual,
        status: JobStatus::Queued,
        priority,
        progress: JobProgress::default(),
        result: None,
        started_at: None,
        completed_at: None,
        created_at,
        worker_id: None,
        claimed_at: None,
        heartbeat_at: None,
        read: false,
    }
}

fn store(jobs: Vec<Job>) -> JobStore {
    let mut s = JobStore::new();
    for j in jobs {
        s.insert(j);
    }
    s
}

fn owner_rule_holds(s: &JobStore) -> bool {
    s.jobs().iter().all(|j| {
        (j.status != JobStatus::Processing || j.worker_id.is_some())
            && j.worker_id.is_some() == j.claimed_at.is_some()
            && j.worker_id.is_some() == j.heartbeat_at.is_some()
            && j.worker_id.is_some() == j.started_at.is_some()
    })
}

#[test]
fn a_claim_takes_the_job_that_comes_first() {
    let mut s = store(vec![job("late", 5, 10), job("low", 9, 1), job("early", 5, 3), job("twin", 5, 3)]);
    let w = JobRepository::new("w1".to_string());
    let claimed = w.claim_next(&mut s, 100).map(|j| j.clone()).unwrap();
    assert_eq!(claimed.job_id, "early");
    assert_eq!(claimed.status, JobStatus::Processing);
    assert_eq!(claimed.worker_id, Some("w1".to_string()));
    assert_eq!(claimed.claimed_at, Some(100));
    assert_eq!(claimed.heartbeat_at, Some(100));
    assert_eq!(claimed.started_at, Some(100));
    assert_eq!(s.jobs()[2].status, JobStatus::Processing);
    assert_eq!(s.jobs()[0].status, JobStatus::Queued);
    let order: Vec<String> = (0..3).map(|t| w.claim_next(&mut s, 200 + t).unwrap().job_id.clone()).collect();
    assert_eq!(order, vec!["twin", "late", "low"]);
    assert!(w.claim_next(&mut s, 300).is_none());
    assert!(owner_rule_holds(&s));
}

#[test]
fn of_two_workers_that_claim_one_job_one_wins() {
    let mut s = store(vec![job("only", 1, 1)]);
    let first = JobRepository::new("w1".to_string());
    let second = JobRepository::new("w2".to_string());
    let won = first.claim_next(&mut s, 10).map(|j| j.job_id.clone());
    let lost = second.claim_next(&mut s, 10).map(|j| j.job_id.clone());
    assert_eq!(won, Some("only".to_string()));
    assert_eq!(lost, None);
    assert_eq!(s.jobs()[0].worker_id, Some("w1".to_string()));
    assert!(owner_rule_holds(&s));
}

#[test]
fn a_claim_passes_over_jobs_that_do_not_wait() {
    let mut held = job("held", 0, 0);
    held.worker_id = Some("other".to_string());
    let mut done = job("done", 0, 0);
    done.status = JobStatus::Completed;
    let mut s = store(vec![held, done, job("free", 7, 7)]);
    let w = JobRepository::new("w1".to_string());
    assert_eq!(w.claim_next(&mut s, 1).map(|j| j.job_id.clone()), Some("free".to_string()));
    assert!(w.claim_next(&mut s, 2).is_none());
    assert!(JobRepository::new("w".to_string()).claim_next(&mut JobStore::new(), 1).is_none());
}

#[test]
fn a_heartbeat_reaches_only_the_job_that_the_worker_holds() {
    let mut s = store(vec![job("a", 1, 1), job("b", 1, 2)]);
    let w1 = JobRepository::new("w1".to_string());
    let w2 = JobRepository::new("w2".to_string());
    assert_eq!(w1.worker_id(), "w1");
    w1.claim_next(&mut s, 10);
    assert!(w1.heartbeat(&mut s, "a", 20));
    assert_eq!(s.jobs()[0].heartbeat_at, Some(20));
    assert_eq!(s.jobs()[0].claimed_at, Some(10));
    assert!(!w1.heartbeat(&mut s, "a", 20));
    assert!(!w2.heartbeat(&mut s, "a", 30));
    assert!(!w1.heartbeat(&mut s, "b", 30));
    assert!(!w1.heartbeat(&mut s, "missing", 30));
    assert_eq!(s.jobs()[0].heartbeat_at, Some(20));
    assert!(owner_rule_holds(&s));
}

#[test]
fn a_released_job_waits_again() {
    let mut s = store(vec![job("a", 1, 1), job("b", 1, 2), job("c", 1, 3)]);
    let w1 = JobRepository::new("w1".to_string());
    let w2 = JobRepository::new("w2".to_string());
    w1.claim_next(&mut s, 10);
    w2.claim_next(&mut s, 11);
    w1.claim_next(&mut s, 12);
    assert!(!w2.release(&mut s, "a"));
    assert!(w1.release(&mut s, "a"));
    assert!(!w1.release(&mut s, "a"));
    let a = &s.jobs()[0];
    assert_eq!(a.status, JobStatus::Queued);
    assert_eq!((a.worker_id.clone(), a.claimed_at, a.heartbeat_at, a.started_at), (None, None, None, None));
    assert_eq!(w1.release_all(&mut s), 1);
    assert_eq!(w1.release_all(&mut s), 0);
    assert_eq!(s.jobs()[2].status, JobStatus::Queued);
    assert_eq!(s.jobs()[1].worker_id, Some("w2".to_string()));
    assert_eq!(w2.claim_next(&mut s, 20).map(|j| j.job_id.clone()), Some("a".to_string()));
    assert!(owner_rule_holds(&s));
}

#[test]
fn a_job_ends_in_one_of_three_states() {
    let mut s = store(vec![job("a", 1, 1), job("b", 1, 2), job("c", 1, 3)]);
    let w = JobRepository::new("w1".to_string());
    w.claim_next(&mut s, 10);
    w.complete(&mut s, "key-a", JobResult::success(2, 0, 5, 4, 1, Vec::new()), 50);
    w.fail(&mut s, "key-b", vec!["No valid sources in config".to_string()], 51);
    w.skip(&mut s, "key-c", "unchanged".to_string(), 52);
    w.complete(&mut s, "key-missing", JobResult::failure(Vec::new()), 53);
    let a = &s.jobs()[0];
    assert_eq!((a.status, a.completed_at), (JobStatus::Completed, Some(50)));
    assert_eq!(a.result.as_ref().map(|r| (r.sources_processed, r.unique_domains, r.kind())), Some((2, 4, ResultKind::Success)));
    assert_eq!(a.worker_id, Some("w1".to_string()));
    let b = &s.jobs()[1];
    assert_eq!((b.status, b.completed_at), (JobStatus::Failed, Some(51)));
    assert_eq!(b.result.as_ref().map(|r| (r.errors.clone(), r.kind())), Some((vec!["No valid sources in config".to_string()], ResultKind::Failure)));
    let c = &s.jobs()[2];
    assert_eq!((c.status, c.completed_at), (JobStatus::Skipped, Some(52)));
    assert_eq!(c.result.as_ref().map(|r| (r.skip_reason.clone(), r.kind())), Some((Some("unchanged".to_string()), ResultKind::Skipped)));
    assert!(w.claim_next(&mut s, 60).is_none());
    assert!(!w.heartbeat(&mut s, "a", 61));
    assert!(owner_rule_holds(&s));
}

#[test]
fn progress_is_replaced_as_a_whole() {
    let mut s = store(vec![job("a", 1, 1)]);
    let w = JobRepository::new("w1".to_string());
    let mut p = JobProgress::downloading(3);
    assert!(p.stage_started_at.is_some());
    p.processed_sources = 2;
    w.update_progress(&mut s, "key-a", p);
    assert_eq!(s.jobs()[0].progress.stage, JobStage::Downloading);
    assert_eq!(s.jobs()[0].progress.total_sources, 3);
    assert_eq!(s.jobs()[0].progress.processed_sources, 2);
    w.update_progress(&mut s, "key-b", JobProgress::default());
    assert_eq!(s.jobs()[0].progress.total_sources, 3);
}

#[test]
fn progress_passes_through_the_stages() {
    let queued = JobProgress::default();
    assert_eq!((queued.current_step.as_str(), queued.stage), ("queued", JobStage::Queue));
    assert_eq!(queued.stage_started_at, None);
    let mut p = JobProgress::downloading_at(2, "t0".to_string());
    assert_eq!((p.current_step.as_str(), p.stage, p.total_sources), ("downloading", JobStage::Downloading, 2));
    assert_eq!(p.stage_started_at, Some("t0".to_string()));
    p.to_whitelist_at(10, "t1".to_string());
    assert_eq!((p.current_step.as_str(), p.stage), ("whitelist", JobStage::Whitelist));
    let w = p.whitelist.clone().unwrap();
    assert_eq!((w.domains_before, w.domains_after, w.total_removed, w.processing), (10, 10, 0, true));
    assert!(w.patterns.is_empty());
    p.to_generation_at(8, "t2".to_string());
    assert_eq!((p.current_step.as_str(), p.stage), ("generation", JobStage::Generation));
    let g = p.generation.clone().unwrap();
    assert_eq!(g.current_format, None);
    let formats: Vec<(&str, u64, u64)> = g.formats.iter().map(|f| (f.format.as_str(), f.domains_written, f.total_domains)).collect();
    assert_eq!(formats, vec![("hosts", 0, 8), ("plain", 0, 8), ("adblock", 0, 8)]);
    p.to_completed_at("t3".to_string());
    assert_eq!((p.current_step.as_str(), p.stage), ("completed", JobStage::Completed));
    assert_eq!(p.stage_started_at, Some("t3".to_string()));
    assert!(p.whitelist.is_some() && p.generation.is_some());
    assert_eq!(p.total_sources, 2);

    let mut now = JobProgress::downloading(1);
    now.to_whitelist(1);
    now.to_generation(1);
    now.to_completed();
    assert_eq!(now.stage, JobStage::Completed);
    assert!(now.stage_started_at.is_some());
}

#[test]
fn results_are_of_four_kinds() {
    let ok = JobResult::success(1, 2, 3, 4, 5, Vec::new());
    assert_eq!((ok.sources_processed, ok.sources_failed, ok.total_domains, ok.unique_domains, ok.whitelisted_removed), (1, 2, 3, 4, 5));
    assert_eq!(ok.kind(), ResultKind::Success);
    let failed = JobResult::failure(vec!["e".to_string()]);
    assert_eq!((failed.errors.len(), failed.total_domains, failed.kind()), (1, 0, ResultKind::Failure));
    let skipped = JobResult::skipped("r".to_string());
    assert_eq!((skipped.skip_reason.clone(), skipped.kind()), (Some("r".to_string()), ResultKind::Skipped));
    let copied = JobResult::copied_from_user("alice".to_string(), 9, 8, Vec::new(), 2, 1, 3, Vec::new());
    assert_eq!(copied.copied_from, Some("alice".to_string()));
    assert_eq!((copied.total_domains, copied.unique_domains, copied.sources_processed, copied.sources_failed, copied.whitelisted_removed), (9, 8, 2, 1, 3));
    assert_eq!(copied.kind(), ResultKind::Copied);
}
