//! The course of a job. Each step of a job ends in outside work: a lookup,
//! the downloads, the writing of files. The state of a job between two
//! steps is a value of its own type, and the only way on from it is to hand
//! it what the outside work gave. So the steps come in their order.

use crate::db::progress::{file_views, JobProgress, JobResult, JobStage, OutputFile};
use crate::db::user::{list_views, BuildOutcome, MatchedUser};
use crate::downloader::{source_views, DownloadResult, Source};
use crate::extractor::DomainExtractor;
use crate::pipeline::{
    copied_source_count, counted_files, is_copied_outcome, sizes_sum, skip_message, total_size,
    BuildPlan, CopyOutcome,
};
use crate::processor::{union_of, CategoryDomains, JobProcessor};
use crate::stages::{
    is_generation_plan, is_initial_progress, buckets_of, built_lists, counts_sum, domains_noted, downloads_noted, filtered_buckets,
    kept_set, succeeded, unique_domains_of, update_views, updates_of, whitelist_noted,
    DomainCountUpdate, GenerationPlan,
};
use crate::whitelist::parse_whitelist;
use vstd::prelude::*;

verus! {

/// A job whose configuration is unchanged, and which waits to hear
/// whether the cache has all its sources.
pub struct CacheCheck {
    plan: BuildPlan,
}

/// A job that waits to hear whether another tenant has built the same
/// configuration.
pub struct MatchSearch {
    plan: BuildPlan,
}

/// A job that waits for the output files of another tenant to be copied.
pub struct CopyJob {
    plan: BuildPlan,
    matched: MatchedUser,
}

/// A job that waits for its downloads.
pub struct DownloadJob {
    plan: BuildPlan,
}

/// A job whose downloads are in, and whose domains are to be extracted.
pub struct ExtractJob {
    plan: BuildPlan,
    results: Vec<DownloadResult>,
}

/// A job that waits for the whitelist of its tenant.
pub struct WhitelistJob {
    plan: BuildPlan,
    results: Vec<DownloadResult>,
    domains: CategoryDomains,
}

/// A job that waits for its output files to be written.
pub struct GenerateJob {
    plan: BuildPlan,
    results: Vec<DownloadResult>,
    domain_total: u64,
    removed: u64,
}

/// What a job leaves behind: its result, and what is written to the
/// record of its tenant.
pub struct Commit {
    pub result: JobResult,
    pub outcome: BuildOutcome,
}

/// What follows the lookup of the stored hash.
pub enum SkipCheck {
    /// The configuration is unchanged: the cache is to be asked.
    CheckCache(CacheCheck),
    /// The configuration has changed: a tenant with the same one is looked for.
    Search(MatchSearch),
}

/// What follows the check of the cache.
pub enum SkipStep {
    /// The job is skipped for this reason.
    Skip(String),
    /// A tenant with the same configuration is looked for.
    Search(MatchSearch),
}

/// What follows the search for a tenant with the same configuration.
pub enum MatchStep {
    /// The output of that tenant is copied.
    Copy(CopyJob),
    /// The job builds its output.
    Build(DownloadJob),
}

/// What follows the copy.
pub enum CopyStep {
    /// The job is complete.
    Done(CopyOutcome, BuildPlan),
    /// The copy failed: the job builds its output.
    Build(DownloadJob),
}

/// What follows the downloads.
pub enum DownloadStep {
    /// The job fails with these errors.
    Fail(Vec<String>),
    /// The domains are extracted.
    Extract(ExtractJob),
}

/// What follows the extraction. Either way the domain counts are to be
/// noted in the cache.
pub enum ExtractStep {
    /// The job fails with these errors.
    Fail(Vec<String>, Vec<DomainCountUpdate>),
    /// The whitelist is applied.
    Whitelist(WhitelistJob, Vec<DomainCountUpdate>),
}

/// What follows the loading of the whitelist.
pub enum WhitelistStep {
    /// The job is given up with this error.
    Abort(String),
    /// The generator is to write these lists.
    Generate(GenerateJob, GenerationPlan),
}

/// What follows the writing of the output files.
pub enum GenerateStep {
    /// The job is given up with this error.
    Abort(String),
    /// The job is complete.
    Commit(Commit),
}

impl BuildPlan {
    /// What follows the lookup of the hash that the record of the tenant
    /// keeps: where it is the hash of this configuration the cache is
    /// asked, else a tenant with the same configuration is looked for.
    pub fn after_stored_hash(self, stored_hash: Option<String>) -> (next: SkipCheck)
        ensures
            match next {
                SkipCheck::CheckCache(c) => c.plan() == self && (stored_hash matches Some(h) && h@
                    == self.config_hash@),
                SkipCheck::Search(m) => m.plan() == self && !(stored_hash matches Some(h) && h@
                    == self.config_hash@),
            },
    {
        if self.is_unchanged(&stored_hash) {
            SkipCheck::CheckCache(CacheCheck { plan: self })
        } else {
            SkipCheck::Search(MatchSearch { plan: self })
        }
    }
}

impl CacheCheck {
    pub closed spec fn plan(&self) -> BuildPlan {
        self.plan
    }

    /// The sources of which the cache is asked.
    pub fn sources(&self) -> (s: &Vec<Source>)
        ensures
            *s == self.plan().sources,
    {
        &self.plan.sources
    }

    /// What follows the check of the cache: with every source in the
    /// cache the job is skipped, since nothing has changed.
    pub fn resolve(self, all_cached: bool) -> (next: SkipStep)
        ensures
            match next {
                SkipStep::Skip(reason) => all_cached && reason@ == skip_message(),
                SkipStep::Search(m) => !all_cached && m.plan() == self.plan(),
            },
    {
        match BuildPlan::skip_reason(true, all_cached) {
            Some(reason) => SkipStep::Skip(reason),
            None => SkipStep::Search(MatchSearch { plan: self.plan }),
        }
    }
}

impl MatchSearch {
    pub closed spec fn plan(&self) -> BuildPlan {
        self.plan
    }

    /// The fingerprint that is looked for.
    pub fn fingerprint(&self) -> (f: &String)
        ensures
            *f == self.plan().config_fingerprint,
    {
        &self.plan.config_fingerprint
    }

    /// What follows the search: the output of the tenant that was found
    /// is copied; where none was found the job builds its output.
    pub fn resolve(self, matched: Option<MatchedUser>) -> (next: MatchStep)
        ensures
            match next {
                MatchStep::Copy(c) => matched == Some(c.matched()) && c.plan() == self.plan(),
                MatchStep::Build(d) => matched is None && d.plan() == self.plan(),
            },
    {
        match matched {
            Some(m) => MatchStep::Copy(CopyJob { plan: self.plan, matched: m }),
            None => MatchStep::Build(DownloadJob { plan: self.plan }),
        }
    }
}

impl CopyJob {
    pub closed spec fn plan(&self) -> BuildPlan {
        self.plan
    }

    pub closed spec fn matched(&self) -> MatchedUser {
        self.matched
    }

    /// The tenant whose output is copied.
    pub fn source(&self) -> (m: &MatchedUser)
        ensures
            *m == self.matched(),
    {
        &self.matched
    }

    /// What follows the copy. `copied` lists the files that were copied,
    /// or says why they could not be; `last_result` is the result of the
    /// last completed job of the tenant that was copied from. After a
    /// copy the job is complete; after a failure it builds its output.
    pub fn resolve(
        self,
        copied: Result<Vec<OutputFile>, String>,
        last_result: Option<JobResult>,
        now: i64,
    ) -> (next: CopyStep)
        requires
            copied matches Ok(files) ==> sizes_sum(counted_files(last_result, file_views(files@)))
                <= u64::MAX && copied_source_count(last_result) <= u64::MAX,
        ensures
            match next {
                CopyStep::Done(outcome, plan) => {
                    &&& plan == self.plan()
                    &&& copied matches Ok(files)
                    &&& is_copied_outcome(
                        outcome,
                        self.matched(),
                        last_result,
                        file_views(files@),
                        now,
                    )
                },
                CopyStep::Build(d) => copied is Err && d.plan() == self.plan(),
            },
    {
        match copied {
            Ok(files) => CopyStep::Done(
                JobProcessor::copied_outcome(self.matched, last_result, files, now),
                self.plan,
            ),
            Err(_) => CopyStep::Build(DownloadJob { plan: self.plan }),
        }
    }
}

impl DownloadJob {
    pub closed spec fn plan(&self) -> BuildPlan {
        self.plan
    }

    /// The sources to download.
    pub fn sources(&self) -> (s: &Vec<Source>)
        ensures
            *s == self.plan().sources,
    {
        &self.plan.sources
    }

    /// The progress of the job as its downloads begin at `started_at`.
    pub fn begin(&self, started_at: String) -> (p: JobProgress)
        ensures
            is_initial_progress(p, self.plan().sources@, started_at),
    {
        JobProcessor::initial_progress(&self.plan.sources, started_at)
    }

    /// What follows the downloads, whose results come in the order of the
    /// sources. They are noted in the progress. Where every one failed the
    /// job fails; a single failure does not fail it.
    pub fn resolve(self, results: Vec<DownloadResult>, progress: &mut JobProgress) -> (next:
        DownloadStep)
        ensures
            downloads_noted(*final(progress), *old(progress), results@),
            match next {
                DownloadStep::Fail(errors) => errors@.len() == 1 && errors@[0]@
                    == "All source downloads failed"@ && succeeded(results@) == 0,
                DownloadStep::Extract(e) => e.plan() == self.plan() && e.results() == results
                    && succeeded(results@) > 0,
            },
    {
        JobProcessor::download_stage(progress, &results);
        proof {
            lemma_succeeded(results@);
        }
        if JobProcessor::all_failed(&results) {
            let mut errors: Vec<String> = Vec::new();
            errors.push("All source downloads failed".to_string());
            DownloadStep::Fail(errors)
        } else {
            DownloadStep::Extract(ExtractJob { plan: self.plan, results })
        }
    }
}

/// No download succeeded exactly where each has an error.
pub proof fn lemma_succeeded(results: Seq<DownloadResult>)
    ensures
        succeeded(results) == 0 <==> forall|i: int|
            0 <= i < results.len() ==> (#[trigger] results[i]).error is Some,
    decreases results.len(),
{
    if results.len() > 0 {
        let front = results.drop_last();
        lemma_succeeded(front);
        assert forall|i: int| 0 <= i < front.len() implies results[i] == front[i] by {}
        if succeeded(results) == 0 {
            assert forall|i: int| 0 <= i < results.len() implies (#[trigger] results[i]).error is Some by {
                if i < front.len() {
                    assert(front[i].error is Some);
                }
            }
        } else if results.last().error is None {
            assert(results[results.len() - 1].error is None);
        } else {
            let i = choose|i: int| 0 <= i < front.len() && !((#[trigger] front[i]).error is Some);
            assert(results[i].error is None);
        }
    }
}

impl ExtractJob {
    pub closed spec fn plan(&self) -> BuildPlan {
        self.plan
    }

    pub closed spec fn results(&self) -> Vec<DownloadResult> {
        self.results
    }

    /// Extracts the domains of the downloads and notes their numbers in
    /// the progress. Where the downloads name no domain at all the job
    /// fails. This is decided before the whitelist is applied: a
    /// whitelist that removes every domain does not fail the job here.
    pub fn resolve(self, extractor: &DomainExtractor, progress: &mut JobProgress) -> (next:
        ExtractStep)
        ensures
            domains_noted(*final(progress), *old(progress), self.results()@),
            match next {
                ExtractStep::Fail(errors, updates) => errors@.len() == 1 && errors@[0]@
                    == "No domains extracted"@ && union_of(buckets_of(self.results()@))
                    == Set::<Seq<char>>::empty() && update_views(updates@) == updates_of(
                    self.results()@,
                ),
                ExtractStep::Whitelist(w, updates) => w.plan() == self.plan() && w.results()
                    == self.results() && w.domains()@ == buckets_of(self.results()@)
                    && union_of(w.domains()@) != Set::<Seq<char>>::empty() && update_views(
                    updates@,
                ) == updates_of(self.results()@),
            },
    {
        let (domains, updates) = JobProcessor::extraction_stage(extractor, &self.results, progress);
        if domains.is_empty() {
            let mut errors: Vec<String> = Vec::new();
            errors.push("No domains extracted".to_string());
            ExtractStep::Fail(errors, updates)
        } else {
            ExtractStep::Whitelist(
                WhitelistJob { plan: self.plan, results: self.results, domains },
                updates,
            )
        }
    }
}

impl WhitelistJob {
    pub closed spec fn plan(&self) -> BuildPlan {
        self.plan
    }

    pub closed spec fn results(&self) -> Vec<DownloadResult> {
        self.results
    }

    pub closed spec fn domains(&self) -> CategoryDomains {
        self.domains
    }

    /// Enters the whitelist stage at `started_at`, with the number of
    /// unique domains that the job has extracted.
    pub fn begin(&self, progress: &mut JobProgress, started_at: String)
        ensures
            final(progress).stage == JobStage::Whitelist,
            final(progress).stage_started_at == Some(started_at),
            final(progress).same_work_as(old(progress)),
            final(progress).generation == old(progress).generation,
            final(progress).whitelist matches Some(w) && w.domains_before == union_of(
                self.domains()@,
            ).len() && w.domains_after == w.domains_before && w.total_removed == 0
                && w.processing,
    {
        let before = self.domains.total_count() as u64;
        progress.to_whitelist_at(before, started_at);
    }

    /// What follows the loading of the whitelist: it is applied to the
    /// domains of every category, and what is left is sorted for the
    /// generator. A whitelist that cannot be loaded gives the job up.
    pub fn resolve(self, whitelist: Result<String, String>, progress: &mut JobProgress) -> (next:
        WhitelistStep)
        ensures
            match whitelist {
                Err(e) => next == WhitelistStep::Abort(e) && *final(progress) == *old(progress),
                Ok(content) => {
                    let ps = parse_whitelist(content@);
                    let all = union_of(self.domains()@);
                    let left = filtered_buckets(ps, self.domains()@);
                    &&& whitelist_noted(*final(progress), *old(progress), ps, all, union_of(left))
                    &&& next matches WhitelistStep::Generate(job, plan)
                    &&& job.plan() == self.plan()
                    &&& job.results() == self.results()
                    &&& job.removed() == all.len() - kept_set(ps, all).len()
                    &&& job.domain_total() == union_of(left).len()
                    &&& is_generation_plan(plan, left)
                },
            },
    {
        let content = match whitelist {
            Ok(c) => c,
            Err(e) => {
                return WhitelistStep::Abort(e);
            },
        };
        let (left, removed) = JobProcessor::whitelist_stage(
            content.as_str(),
            self.domains,
            progress,
        );
        let domain_total = left.total_count() as u64;
        let plan = JobProcessor::generation_stage(left);
        WhitelistStep::Generate(
            GenerateJob { plan: self.plan, results: self.results, domain_total, removed },
            plan,
        )
    }
}

impl GenerateJob {
    pub closed spec fn plan(&self) -> BuildPlan {
        self.plan
    }

    pub closed spec fn results(&self) -> Vec<DownloadResult> {
        self.results
    }

    pub closed spec fn removed(&self) -> u64 {
        self.removed
    }

    pub closed spec fn domain_total(&self) -> u64 {
        self.domain_total
    }

    /// Enters the generation stage at `started_at`, with the number of
    /// unique domains that are left to write.
    pub fn begin(&self, progress: &mut JobProgress, started_at: String)
        ensures
            final(progress).stage == JobStage::Generation,
            final(progress).stage_started_at == Some(started_at),
            final(progress).same_work_as(old(progress)),
            final(progress).whitelist == old(progress).whitelist,
            final(progress).generation matches Some(g) && g.formats@.len() == 3
                && g.formats@[0].is_pending_record("hosts"@, self.domain_total())
                && g.formats@[1].is_pending_record("plain"@, self.domain_total())
                && g.formats@[2].is_pending_record("adblock"@, self.domain_total()),
    {
        progress.to_generation_at(self.domain_total, started_at);
    }

    /// What follows the writing of the output files: the progress is at
    /// its end, and the job is complete with its result and with what is
    /// written to the record of its tenant. A generator that fails gives
    /// the job up.
    pub fn resolve(
        self,
        generated: Result<Vec<OutputFile>, String>,
        progress: &mut JobProgress,
        completed_at: String,
        now: i64,
    ) -> (next: GenerateStep)
        requires
            counts_sum(old(progress).sources@) <= u64::MAX,
            generated matches Ok(files) ==> sizes_sum(file_views(files@)) <= u64::MAX,
        ensures
            match generated {
                Err(e) => next == GenerateStep::Abort(e) && *final(progress) == *old(progress),
                Ok(files) => {
                    &&& final(progress).stage == JobStage::Completed
                    &&& final(progress).stage_started_at == Some(completed_at)
                    &&& final(progress).same_work_as(old(progress))
                    &&& next matches GenerateStep::Commit(c)
                    &&& c.result.has_counts(
                        succeeded(self.results()@) as u64,
                        (self.results()@.len() - succeeded(self.results()@)) as u64,
                        counts_sum(old(progress).sources@) as u64,
                        unique_domains_of(file_views(files@)),
                        self.removed(),
                    )
                    &&& c.result.output_files == files
                    &&& c.result.errors@.len() == 0
                    &&& c.result.skip_reason is None
                    &&& c.result.copied_from is None
                    &&& list_views(c.outcome.lists@) == built_lists(
                        file_views(files@),
                        unique_domains_of(file_views(files@)),
                        now,
                    )
                    &&& c.outcome.total_domains == unique_domains_of(file_views(files@))
                    &&& c.outcome.total_output_size == sizes_sum(file_views(files@))
                    &&& c.outcome.config_hash == self.plan().config_hash
                    &&& c.outcome.config_fingerprint == self.plan().config_fingerprint
                },
            },
    {
        let files = match generated {
            Ok(f) => f,
            Err(e) => {
                return GenerateStep::Abort(e);
            },
        };
        progress.to_completed_at(completed_at);
        let total_output_size = total_size(&files);
        let ghost views = file_views(files@);
        let unique = match crate::pipeline::first_named(&files, "all_domains_hosts.txt.gz") {
            Some(n) => n,
            None => 0,
        };
        let lists = JobProcessor::build_lists(&files, unique, now);
        let result = JobProcessor::job_result(&self.results, progress, files, self.removed);
        GenerateStep::Commit(
            Commit {
                result,
                outcome: BuildOutcome {
                    lists,
                    total_domains: unique,
                    total_output_size,
                    config_hash: self.plan.config_hash,
                    config_fingerprint: self.plan.config_fingerprint,
                },
            },
        )
    }
}

} // verus!
