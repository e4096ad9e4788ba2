//! The progress of a job as user interfaces read it, and its final result.

use crate::clock::timestamp_now;
use crate::text::strings;
use vstd::prelude::*;

verus! {

/// The stage that a job is in.
#[derive(Debug, Clone, Copy, PartialEq, Eq, Structural)]
pub enum JobStage {
    Queue,
    Downloading,
    Whitelist,
    Generation,
    Completed,
}

/// The state of one source within a job.
#[derive(Debug, Clone, Copy, PartialEq, Eq, Structural)]
pub enum SourceStatus {
    Pending,
    Downloading,
    Processing,
    Completed,
    Failed,
}

/// The state of one output format within the generation stage.
#[derive(Debug, Clone, Copy, PartialEq, Eq, Structural)]
pub enum FormatStatus {
    Pending,
    Generating,
    Compressing,
    Completed,
}

/// The progress of one source.
#[derive(Debug, Clone)]
pub struct SourceProgress {
    /// The hash of the URL.
    pub id: String,
    pub name: String,
    pub url: String,
    pub status: SourceStatus,
    pub cache_hit: Option<bool>,
    pub bytes_downloaded: u64,
    pub bytes_total: Option<u64>,
    pub download_time_ms: Option<u64>,
    pub domain_count: Option<u64>,
    /// The domain count less that of the build before.
    pub domain_change: Option<i64>,
    pub error: Option<String>,
    pub warnings: Vec<String>,
    pub started_at: Option<String>,
    pub completed_at: Option<String>,
}

/// How many removed domains one whitelist pattern matched.
#[derive(Debug, Clone)]
pub struct WhitelistPatternMatch {
    pub pattern: String,
    pub pattern_type: String,
    pub match_count: u64,
    pub samples: Vec<String>,
}

/// The mathematical value of a `WhitelistPatternMatch`.
pub struct PatternMatchView {
    pub pattern: Seq<char>,
    pub pattern_type: Seq<char>,
    pub match_count: nat,
    pub samples: Seq<Seq<char>>,
}

impl View for WhitelistPatternMatch {
    type V = PatternMatchView;

    open spec fn view(&self) -> PatternMatchView {
        PatternMatchView {
            pattern: self.pattern@,
            pattern_type: self.pattern_type@,
            match_count: self.match_count as nat,
            samples: strings(self.samples@),
        }
    }
}

/// The progress of the whitelist stage.
#[derive(Debug, Clone)]
pub struct WhitelistProgress {
    pub domains_before: u64,
    pub domains_after: u64,
    pub total_removed: u64,
    pub processing: bool,
    pub patterns: Vec<WhitelistPatternMatch>,
}

/// The progress of one output format.
#[derive(Debug, Clone)]
pub struct FormatProgress {
    pub format: String,
    pub status: FormatStatus,
    pub domains_written: u64,
    pub total_domains: u64,
    pub file_size: Option<u64>,
    pub gz_size: Option<u64>,
}

/// The progress of the generation stage.
#[derive(Debug, Clone)]
pub struct GenerationProgress {
    pub current_format: Option<String>,
    pub formats: Vec<FormatProgress>,
}

/// The progress of a job.
#[derive(Debug, Clone)]
pub struct JobProgress {
    /// The name of the stage, for older readers.
    pub current_step: String,
    pub stage: JobStage,
    pub total_sources: u64,
    pub processed_sources: u64,
    pub current_source: Option<String>,
    pub queue_position: Option<u64>,
    pub queue_delay_remaining_ms: Option<u64>,
    pub sources: Vec<SourceProgress>,
    pub whitelist: Option<WhitelistProgress>,
    pub generation: Option<GenerationProgress>,
    pub stage_started_at: Option<String>,
}

/// One output file.
#[derive(Debug, Clone)]
pub struct OutputFile {
    pub name: String,
    pub format: String,
    pub size_bytes: u64,
    pub domain_count: u64,
}

/// The mathematical value of an `OutputFile`.
pub struct FileView {
    pub name: Seq<char>,
    pub format: Seq<char>,
    pub size_bytes: u64,
    pub domain_count: u64,
}

impl View for OutputFile {
    type V = FileView;

    open spec fn view(&self) -> FileView {
        FileView {
            name: self.name@,
            format: self.format@,
            size_bytes: self.size_bytes,
            domain_count: self.domain_count,
        }
    }
}

/// The values of a list of output files.
pub open spec fn file_views(files: Seq<OutputFile>) -> Seq<FileView> {
    files.map_values(|f: OutputFile| f@)
}

/// The number of domains of one category.
#[derive(Debug, Clone)]
pub struct CategoryCount {
    pub category: String,
    pub domains: u64,
}

/// The final result of a job.
#[derive(Debug, Clone)]
pub struct JobResult {
    pub sources_processed: u64,
    pub sources_failed: u64,
    pub total_domains: u64,
    pub unique_domains: u64,
    pub whitelisted_removed: u64,
    pub output_files: Vec<OutputFile>,
    pub categories: Vec<CategoryCount>,
    pub errors: Vec<String>,
    pub skip_reason: Option<String>,
    /// The tenant whose output was copied, where the job built nothing itself.
    pub copied_from: Option<String>,
}

/// What a result says of its job.
#[derive(Debug, Clone, Copy, PartialEq, Eq, Structural)]
pub enum ResultKind {
    Success,
    Failure,
    Skipped,
    Copied,
}

impl Default for JobStage {
    fn default() -> (r: JobStage)
        ensures
            r == JobStage::Queue,
    {
        JobStage::Queue
    }
}

impl Default for SourceStatus {
    fn default() -> (r: SourceStatus)
        ensures
            r == SourceStatus::Pending,
    {
        SourceStatus::Pending
    }
}

impl Default for FormatStatus {
    fn default() -> (r: FormatStatus)
        ensures
            r == FormatStatus::Pending,
    {
        FormatStatus::Pending
    }
}

impl SourceProgress {
    /// The record of a source that nothing has been done with yet.
    pub open spec fn is_pending_record(&self, id: Seq<char>, name: Seq<char>, url: Seq<char>) -> bool {
        &&& self.id@ == id
        &&& self.name@ == name
        &&& self.url@ == url
        &&& self.status == SourceStatus::Pending
        &&& self.cache_hit is None
        &&& self.bytes_downloaded == 0
        &&& self.bytes_total is None
        &&& self.download_time_ms is None
        &&& self.domain_count is None
        &&& self.domain_change is None
        &&& self.error is None
        &&& self.warnings@.len() == 0
        &&& self.started_at is None
        &&& self.completed_at is None
    }

    /// The record of a source that nothing has been done with yet.
    pub fn pending(id: String, name: String, url: String) -> (r: SourceProgress)
        ensures
            r.is_pending_record(id@, name@, url@),
    {
        SourceProgress {
            id,
            name,
            url,
            status: SourceStatus::Pending,
            cache_hit: None,
            bytes_downloaded: 0,
            bytes_total: None,
            download_time_ms: None,
            domain_count: None,
            domain_change: None,
            error: None,
            warnings: Vec::new(),
            started_at: None,
            completed_at: None,
        }
    }
}

impl FormatProgress {
    /// Whether this is the record of a format of which nothing is written yet.
    pub open spec fn is_pending_record(&self, format: Seq<char>, total_domains: u64) -> bool {
        &&& self.format@ == format
        &&& self.status == FormatStatus::Pending
        &&& self.domains_written == 0
        &&& self.total_domains == total_domains
        &&& self.file_size is None
        &&& self.gz_size is None
    }

    /// The record of a format of which nothing is written yet.
    pub fn pending(format: &str, total_domains: u64) -> (r: FormatProgress)
        ensures
            r.is_pending_record(format@, total_domains),
    {
        FormatProgress {
            format: format.to_string(),
            status: FormatStatus::Pending,
            domains_written: 0,
            total_domains,
            file_size: None,
            gz_size: None,
        }
    }
}

impl JobProgress {
    /// Whether everything but the stage, its name and its start is as in `other`.
    pub open spec fn same_work_as(&self, other: &JobProgress) -> bool {
        &&& self.total_sources == other.total_sources
        &&& self.processed_sources == other.processed_sources
        &&& self.current_source == other.current_source
        &&& self.queue_position == other.queue_position
        &&& self.queue_delay_remaining_ms == other.queue_delay_remaining_ms
        &&& self.sources == other.sources
    }

    /// Whether this is the progress of a job at the start of a stage, with
    /// no source listed and neither whitelist nor generation begun.
    pub open spec fn is_fresh(&self, step: Seq<char>, stage: JobStage, total_sources: u64) -> bool {
        &&& self.current_step@ == step
        &&& self.stage == stage
        &&& self.total_sources == total_sources
        &&& self.processed_sources == 0
        &&& self.current_source is None
        &&& self.queue_position is None
        &&& self.queue_delay_remaining_ms is None
        &&& self.sources@.len() == 0
        &&& self.whitelist is None
        &&& self.generation is None
    }

    /// The progress of a job whose downloads began at `started_at`.
    pub fn downloading_at(total_sources: u64, started_at: String) -> (r: JobProgress)
        ensures
            r.is_fresh("downloading"@, JobStage::Downloading, total_sources),
            r.stage_started_at == Some(started_at),
    {
        JobProgress {
            current_step: "downloading".to_string(),
            stage: JobStage::Downloading,
            total_sources,
            processed_sources: 0,
            current_source: None,
            queue_position: None,
            queue_delay_remaining_ms: None,
            sources: Vec::new(),
            whitelist: None,
            generation: None,
            stage_started_at: Some(started_at),
        }
    }

    /// The progress of a job whose downloads begin now.
    pub fn downloading(total_sources: u64) -> (r: JobProgress)
        ensures
            r.is_fresh("downloading"@, JobStage::Downloading, total_sources),
            r.stage_started_at is Some,
    {
        JobProgress::downloading_at(total_sources, timestamp_now())
    }

    /// Enters the whitelist stage at `started_at`: nothing is removed yet.
    pub fn to_whitelist_at(&mut self, domains_before: u64, started_at: String)
        ensures
            final(self).current_step@ == "whitelist"@,
            final(self).stage == JobStage::Whitelist,
            final(self).stage_started_at == Some(started_at),
            final(self).same_work_as(old(self)),
            final(self).generation == old(self).generation,
            final(self).whitelist matches Some(w) && w.domains_before == domains_before
                && w.domains_after == domains_before && w.total_removed == 0 && w.processing
                && w.patterns@.len() == 0,
    {
        self.current_step = "whitelist".to_string();
        self.stage = JobStage::Whitelist;
        self.whitelist = Some(
            WhitelistProgress {
                domains_before,
                domains_after: domains_before,
                total_removed: 0,
                processing: true,
                patterns: Vec::new(),
            },
        );
        self.stage_started_at = Some(started_at);
    }

    /// Enters the whitelist stage now.
    pub fn to_whitelist(&mut self, domains_before: u64)
        ensures
            final(self).current_step@ == "whitelist"@,
            final(self).stage == JobStage::Whitelist,
            final(self).stage_started_at is Some,
            final(self).same_work_as(old(self)),
            final(self).generation == old(self).generation,
            final(self).whitelist matches Some(w) && w.domains_before == domains_before
                && w.domains_after == domains_before && w.total_removed == 0 && w.processing
                && w.patterns@.len() == 0,
    {
        self.to_whitelist_at(domains_before, timestamp_now());
    }

    /// Enters the generation stage at `started_at`: the three formats hosts,
    /// plain and adblock are pending, in this order, each with all domains to write.
    pub fn to_generation_at(&mut self, total_domains: u64, started_at: String)
        ensures
            final(self).current_step@ == "generation"@,
            final(self).stage == JobStage::Generation,
            final(self).stage_started_at == Some(started_at),
            final(self).same_work_as(old(self)),
            final(self).whitelist == old(self).whitelist,
            final(self).generation matches Some(g) && g.current_format is None && g.formats@.len()
                == 3 && g.formats@[0].is_pending_record("hosts"@, total_domains)
                && g.formats@[1].is_pending_record("plain"@, total_domains)
                && g.formats@[2].is_pending_record("adblock"@, total_domains),
    {
        let mut formats: Vec<FormatProgress> = Vec::new();
        formats.push(FormatProgress::pending("hosts", total_domains));
        formats.push(FormatProgress::pending("plain", total_domains));
        formats.push(FormatProgress::pending("adblock", total_domains));
        self.current_step = "generation".to_string();
        self.stage = JobStage::Generation;
        self.generation = Some(GenerationProgress { current_format: None, formats });
        self.stage_started_at = Some(started_at);
    }

    /// Enters the generation stage now.
    pub fn to_generation(&mut self, total_domains: u64)
        ensures
            final(self).current_step@ == "generation"@,
            final(self).stage == JobStage::Generation,
            final(self).stage_started_at is Some,
            final(self).same_work_as(old(self)),
            final(self).whitelist == old(self).whitelist,
            final(self).generation matches Some(g) && g.current_format is None && g.formats@.len()
                == 3 && g.formats@[0].is_pending_record("hosts"@, total_domains)
                && g.formats@[1].is_pending_record("plain"@, total_domains)
                && g.formats@[2].is_pending_record("adblock"@, total_domains),
    {
        self.to_generation_at(total_domains, timestamp_now());
    }

    /// Marks the job completed at `started_at`.
    pub fn to_completed_at(&mut self, started_at: String)
        ensures
            final(self).current_step@ == "completed"@,
            final(self).stage == JobStage::Completed,
            final(self).stage_started_at == Some(started_at),
            final(self).same_work_as(old(self)),
            final(self).whitelist == old(self).whitelist,
            final(self).generation == old(self).generation,
    {
        self.current_step = "completed".to_string();
        self.stage = JobStage::Completed;
        self.stage_started_at = Some(started_at);
    }

    /// Marks the job completed now.
    pub fn to_completed(&mut self)
        ensures
            final(self).current_step@ == "completed"@,
            final(self).stage == JobStage::Completed,
            final(self).stage_started_at is Some,
            final(self).same_work_as(old(self)),
            final(self).whitelist == old(self).whitelist,
            final(self).generation == old(self).generation,
    {
        self.to_completed_at(timestamp_now());
    }
}

impl Default for JobProgress {
    /// The progress of a job that waits in the queue.
    fn default() -> (r: JobProgress)
        ensures
            r.is_fresh("queued"@, JobStage::Queue, 0),
            r.stage_started_at is None,
    {
        JobProgress {
            current_step: "queued".to_string(),
            stage: JobStage::Queue,
            total_sources: 0,
            processed_sources: 0,
            current_source: None,
            queue_position: None,
            queue_delay_remaining_ms: None,
            sources: Vec::new(),
            whitelist: None,
            generation: None,
            stage_started_at: None,
        }
    }
}

impl JobResult {
    /// Whether the result carries these five counts.
    pub open spec fn has_counts(
        &self,
        sources_processed: u64,
        sources_failed: u64,
        total_domains: u64,
        unique_domains: u64,
        whitelisted_removed: u64,
    ) -> bool {
        &&& self.sources_processed == sources_processed
        &&& self.sources_failed == sources_failed
        &&& self.total_domains == total_domains
        &&& self.unique_domains == unique_domains
        &&& self.whitelisted_removed == whitelisted_removed
    }

    /// Whether this is the result of a job that failed with `errors`.
    pub open spec fn is_failure_with(&self, errors: Vec<String>) -> bool {
        &&& self.has_counts(0, 0, 0, 0, 0)
        &&& self.output_files@.len() == 0
        &&& self.categories@.len() == 0
        &&& self.errors == errors
        &&& self.skip_reason is None
        &&& self.copied_from is None
    }

    /// Whether this is the result of a job that was skipped for `reason`.
    pub open spec fn is_skip_with(&self, reason: String) -> bool {
        &&& self.has_counts(0, 0, 0, 0, 0)
        &&& self.output_files@.len() == 0
        &&& self.categories@.len() == 0
        &&& self.errors@.len() == 0
        &&& self.skip_reason == Some(reason)
        &&& self.copied_from is None
    }

    /// What the result says of its job: a copy where it names the tenant it
    /// was copied from, else a skip where it gives a reason, else a failure
    /// where it lists errors, else a success.
    pub open spec fn spec_kind(&self) -> ResultKind {
        if self.copied_from is Some {
            ResultKind::Copied
        } else if self.skip_reason is Some {
            ResultKind::Skipped
        } else if self.errors@.len() > 0 {
            ResultKind::Failure
        } else {
            ResultKind::Success
        }
    }

    /// What the result says of its job.
    pub fn kind(&self) -> (k: ResultKind)
        ensures
            k == self.spec_kind(),
    {
        if self.copied_from.is_some() {
            ResultKind::Copied
        } else if self.skip_reason.is_some() {
            ResultKind::Skipped
        } else if self.errors.len() > 0 {
            ResultKind::Failure
        } else {
            ResultKind::Success
        }
    }

    /// The result of a job that built its output.
    pub fn success(
        sources_processed: u64,
        sources_failed: u64,
        total_domains: u64,
        unique_domains: u64,
        whitelisted_removed: u64,
        output_files: Vec<OutputFile>,
    ) -> (r: JobResult)
        ensures
            r.has_counts(
                sources_processed,
                sources_failed,
                total_domains,
                unique_domains,
                whitelisted_removed,
            ),
            r.output_files == output_files,
            r.categories@.len() == 0,
            r.errors@.len() == 0,
            r.skip_reason is None,
            r.copied_from is None,
            r.spec_kind() == ResultKind::Success,
    {
        JobResult {
            sources_processed,
            sources_failed,
            total_domains,
            unique_domains,
            whitelisted_removed,
            output_files,
            categories: Vec::new(),
            errors: Vec::new(),
            skip_reason: None,
            copied_from: None,
        }
    }

    /// The result of a job that failed with `errors`.
    pub fn failure(errors: Vec<String>) -> (r: JobResult)
        ensures
            r.is_failure_with(errors),
            errors@.len() > 0 ==> r.spec_kind() == ResultKind::Failure,
    {
        JobResult {
            sources_processed: 0,
            sources_failed: 0,
            total_domains: 0,
            unique_domains: 0,
            whitelisted_removed: 0,
            output_files: Vec::new(),
            categories: Vec::new(),
            errors,
            skip_reason: None,
            copied_from: None,
        }
    }

    /// The result of a job that was skipped for `reason`.
    pub fn skipped(reason: String) -> (r: JobResult)
        ensures
            r.is_skip_with(reason),
            r.spec_kind() == ResultKind::Skipped,
    {
        JobResult {
            sources_processed: 0,
            sources_failed: 0,
            total_domains: 0,
            unique_domains: 0,
            whitelisted_removed: 0,
            output_files: Vec::new(),
            categories: Vec::new(),
            errors: Vec::new(),
            skip_reason: Some(reason),
            copied_from: None,
        }
    }

    /// The result of a job whose output was copied from the tenant `username`,
    /// with the counts of the build that was copied.
    pub fn copied_from_user(
        username: String,
        total_domains: u64,
        unique_domains: u64,
        output_files: Vec<OutputFile>,
        sources_processed: u64,
        sources_failed: u64,
        whitelisted_removed: u64,
        categories: Vec<CategoryCount>,
    ) -> (r: JobResult)
        ensures
            r.has_counts(
                sources_processed,
                sources_failed,
                total_domains,
                unique_domains,
                whitelisted_removed,
            ),
            r.output_files == output_files,
            r.categories == categories,
            r.errors@.len() == 0,
            r.skip_reason is None,
            r.copied_from == Some(username),
            r.spec_kind() == ResultKind::Copied,
    {
        JobResult {
            sources_processed,
            sources_failed,
            total_domains,
            unique_domains,
            whitelisted_removed,
            output_files,
            categories,
            errors: Vec::new(),
            skip_reason: None,
            copied_from: Some(username),
        }
    }
}

} // verus!
