//! The stages of a build: what the downloads give is noted, the domains are
//! extracted and put into their categories, the whitelist is applied, the
//! lists are sorted for output, and the result is drawn up.

use crate::db::progress::{
    file_views, FileView, JobProgress, JobResult, JobStage, OutputFile, SourceProgress,
    SourceStatus, WhitelistProgress,
};
use crate::db::user::{list_views, ListMetadata, ListView};
use crate::domains::{is_strictly_sorted, DomainSet};
use crate::downloader::{url_hash_of, DownloadResult, Downloader, Source};
use crate::extractor::{
    parse_content, parsed_results, result_views, DomainExtractor, ExtractionResult,
    ExtractionView,
};
use crate::pipeline::{
    all_formats, category_of_file, count_of_first, formats, has_list, sizes_sum, total_size,
};
use crate::processor::{
    bucket_views, category_view, distinct_categories, union_of, with_added, BucketView,
    CategoryBucket, CategoryDomains, JobProcessor,
};
use crate::text::{
    find_char, from_utf8_lossy, has_prefix, index_of, starts_with, str_eq, string_of, strings,
    to_chars, utf8_lossy_of,
};
use crate::reports::{law_report_ignores_order, removed_set, report_of};
use crate::whitelist::{
    match_views, parse_whitelist, top_matches, whitelisted, PatternView, WhitelistManager,
};
use vstd::prelude::*;

verus! {

/// The domain count of a source, to be noted in the cache.
pub struct DomainCountUpdate {
    pub url_hash: String,
    pub domain_count: u64,
}

/// The record of a source after its download: the state says whether it
/// failed, and the record takes what the download measured and met.
pub open spec fn is_recorded(after: SourceProgress, before: SourceProgress, result: DownloadResult) -> bool {
    &&& after.id == before.id
    &&& after.name == before.name
    &&& after.url == before.url
    &&& after.status == if result.error is Some {
        SourceStatus::Failed
    } else {
        SourceStatus::Completed
    }
    &&& after.cache_hit == Some(result.cache_hit)
    &&& after.bytes_downloaded == result.bytes_downloaded
    &&& after.bytes_total == before.bytes_total
    &&& after.download_time_ms == Some(result.download_time_ms)
    &&& after.domain_count == before.domain_count
    &&& after.domain_change == before.domain_change
    &&& after.error == result.error
    &&& strings(after.warnings@) == strings(result.warnings@)
    &&& after.started_at == before.started_at
    &&& after.completed_at == before.completed_at
}

/// Whether `p` is the progress of a job whose downloads of `sources`
/// began at `started_at`: every source has a record, in the order of the
/// sources, and is pending.
pub open spec fn is_initial_progress(p: JobProgress, sources: Seq<Source>, started_at: String) -> bool {
    &&& p.current_step@ == "downloading"@
    &&& p.stage == JobStage::Downloading
    &&& p.total_sources == sources.len()
    &&& p.processed_sources == 0
    &&& p.current_source is None
    &&& p.queue_position is None
    &&& p.queue_delay_remaining_ms is None
    &&& p.whitelist is None
    &&& p.generation is None
    &&& p.stage_started_at == Some(started_at)
    &&& p.sources@.len() == sources.len()
    &&& forall|i: int|
        0 <= i < sources.len() ==> (#[trigger] p.sources@[i]).is_pending_record(
            url_hash_of(sources[i].url@),
            sources[i].name@,
            sources[i].url@,
        )
}

/// Whether `after` is `before` in all but the records of the sources and
/// the number of sources processed.
pub open spec fn only_sources_differ(after: JobProgress, before: JobProgress) -> bool {
    &&& after.current_step == before.current_step
    &&& after.stage == before.stage
    &&& after.total_sources == before.total_sources
    &&& after.current_source == before.current_source
    &&& after.queue_position == before.queue_position
    &&& after.queue_delay_remaining_ms == before.queue_delay_remaining_ms
    &&& after.whitelist == before.whitelist
    &&& after.generation == before.generation
    &&& after.stage_started_at == before.stage_started_at
}

/// Whether `after` is `before` with what the downloads gave noted: the
/// result at an index belongs to the source at that index, and every
/// source counts as processed.
pub open spec fn downloads_noted(
    after: JobProgress,
    before: JobProgress,
    results: Seq<DownloadResult>,
) -> bool {
    &&& only_sources_differ(after, before)
    &&& after.sources@.len() == before.sources@.len()
    &&& forall|i: int|
        0 <= i < before.sources@.len() && i < results.len() ==> is_recorded(
            #[trigger] after.sources@[i],
            before.sources@[i],
            results[i],
        )
    &&& forall|i: int|
        results.len() <= i < before.sources@.len() ==> (#[trigger] after.sources@[i])
            == before.sources@[i]
    &&& after.processed_sources == before.sources@.len()
}

/// Whether `after` is `before` with the domain counts of the sources noted.
pub open spec fn domains_noted(
    after: JobProgress,
    before: JobProgress,
    results: Seq<DownloadResult>,
) -> bool {
    &&& only_sources_differ(after, before)
    &&& after.processed_sources == before.processed_sources
    &&& after.sources@ == records_after(before.sources@, results)
}

/// Whether a download gave content to extract from.
pub open spec fn is_usable(result: DownloadResult) -> bool {
    result.error is None && result.content is Some
}

/// The domains of a list of results.
pub open spec fn domains_of_results(found: Seq<ExtractionView>) -> Seq<Seq<char>> {
    found.map_values(|e: ExtractionView| e.domain)
}

/// The domains that the bytes of a source name, one for each line that
/// names one, in their order.
pub open spec fn domains_of(content: Seq<u8>) -> Seq<Seq<char>> {
    domains_of_results(parsed_results(parse_content(utf8_lossy_of(content))))
}

/// The domains of a batch by category: each usable result adds its
/// domains to the bucket of the category of its source.
pub open spec fn buckets_of(results: Seq<DownloadResult>) -> Seq<BucketView>
    decreases results.len(),
{
    if results.len() == 0 {
        Seq::empty()
    } else {
        let rest = buckets_of(results.drop_last());
        let r = results.last();
        if is_usable(r) {
            with_added(
                rest,
                category_view(r.source.category),
                domains_of(r.content.unwrap()@).to_set(),
            )
        } else {
            rest
        }
    }
}

/// `d` as an `i64`, or the nearest that an `i64` can hold.
pub open spec fn clamped(d: int) -> i64 {
    if d > i64::MAX {
        i64::MAX
    } else if d < i64::MIN {
        i64::MIN
    } else {
        d as i64
    }
}

/// The change from the domain count of the build before, where it is known.
pub open spec fn change_of(count: u64, previous: Option<u64>) -> Option<i64> {
    match previous {
        Some(p) => Some(clamped(count - p)),
        None => None,
    }
}

/// The index of the first record with the identifier `id`.
pub open spec fn first_record(records: Seq<SourceProgress>, id: Seq<char>) -> Option<int>
    decreases records.len(),
{
    if records.len() == 0 {
        None
    } else {
        match first_record(records.drop_last(), id) {
            Some(i) => Some(i),
            None => if records.last().id@ == id {
                Some(records.len() - 1)
            } else {
                None
            },
        }
    }
}

/// The record with its domain count and change set.
pub open spec fn counted(record: SourceProgress, count: u64, change: Option<i64>) -> SourceProgress {
    SourceProgress { domain_count: Some(count), domain_change: change, ..record }
}

/// The records of the sources after the extraction: for each usable
/// result, the first record with its URL hash takes the number of domains
/// that its content names, and the change from the build before.
pub open spec fn records_after(records: Seq<SourceProgress>, results: Seq<DownloadResult>) -> Seq<
    SourceProgress,
>
    decreases results.len(),
{
    if results.len() == 0 {
        records
    } else {
        let rest = records_after(records, results.drop_last());
        let r = results.last();
        if is_usable(r) {
            let count = domains_of(r.content.unwrap()@).len() as u64;
            match first_record(rest, r.url_hash@) {
                Some(i) => rest.update(
                    i,
                    counted(rest[i], count, change_of(count, r.previous_domain_count)),
                ),
                None => rest,
            }
        } else {
            rest
        }
    }
}

/// The domain counts to be noted in the cache after the extraction: one
/// for each usable result, in their order.
pub open spec fn updates_of(results: Seq<DownloadResult>) -> Seq<(Seq<char>, u64)>
    decreases results.len(),
{
    if results.len() == 0 {
        Seq::empty()
    } else {
        let rest = updates_of(results.drop_last());
        let r = results.last();
        if is_usable(r) {
            rest.push((r.url_hash@, domains_of(r.content.unwrap()@).len() as u64))
        } else {
            rest
        }
    }
}

/// The values of a list of updates.
pub open spec fn update_views(updates: Seq<DomainCountUpdate>) -> Seq<(Seq<char>, u64)> {
    updates.map_values(|u: DomainCountUpdate| (u.url_hash@, u.domain_count))
}

pub proof fn lemma_first_record(records: Seq<SourceProgress>, id: Seq<char>)
    ensures
        match first_record(records, id) {
            Some(i) => {
                &&& 0 <= i < records.len()
                &&& records[i].id@ == id
                &&& forall|j: int| 0 <= j < i ==> (#[trigger] records[j]).id@ != id
            },
            None => forall|j: int| 0 <= j < records.len() ==> (#[trigger] records[j]).id@ != id,
        },
    decreases records.len(),
{
    if records.len() > 0 {
        let front = records.drop_last();
        lemma_first_record(front, id);
        assert forall|j: int| 0 <= j < front.len() implies records[j] == front[j] by {}
    }
}

/// A copy of `texts`, string by string.
fn clone_strings(texts: &Vec<String>) -> (r: Vec<String>)
    ensures
        strings(r@) == strings(texts@),
{
    crate::db::user::copy_strings(texts)
}

impl JobProcessor {
    /// The progress of a job whose downloads began at `started_at`: every
    /// source has a record, in the order of the sources, and is pending.
    pub fn initial_progress(sources: &Vec<Source>, started_at: String) -> (p: JobProgress)
        ensures
            is_initial_progress(p, sources@, started_at),
    {
        let mut p = JobProgress::downloading_at(sources.len() as u64, started_at);
        let mut records: Vec<SourceProgress> = Vec::new();
        let mut i: usize = 0;
        while i < sources.len()
            invariant
                i <= sources.len(),
                records@.len() == i,
                forall|j: int|
                    0 <= j < i ==> (#[trigger] records@[j]).is_pending_record(
                        url_hash_of(sources@[j].url@),
                        sources@[j].name@,
                        sources@[j].url@,
                    ),
            decreases sources.len() - i,
        {
            let source = &sources[i];
            records.push(
                SourceProgress::pending(
                    Downloader::hash_url(source.url.as_str()),
                    source.name.clone(),
                    source.url.clone(),
                ),
            );
            i += 1;
        }
        p.sources = records;
        p
    }

    /// Notes what the downloads gave. The result at an index belongs to the
    /// source at that index; every source then counts as processed.
    pub fn download_stage(progress: &mut JobProgress, results: &Vec<DownloadResult>)
        ensures
            downloads_noted(*final(progress), *old(progress), results@),
    {
        let mut i: usize = 0;
        while i < results.len() && i < progress.sources.len()
            invariant
                progress.sources@.len() == old(progress).sources@.len(),
                i <= results.len(),
                i <= progress.sources.len(),
                forall|j: int|
                    0 <= j < i ==> is_recorded(
                        #[trigger] progress.sources@[j],
                        old(progress).sources@[j],
                        results@[j],
                    ),
                forall|j: int|
                    i <= j < progress.sources@.len() ==> (#[trigger] progress.sources@[j]) == old(
                        progress,
                    ).sources@[j],
                progress.processed_sources == old(progress).processed_sources,
                progress.current_step == old(progress).current_step,
                progress.stage == old(progress).stage,
                progress.total_sources == old(progress).total_sources,
                progress.current_source == old(progress).current_source,
                progress.queue_position == old(progress).queue_position,
                progress.queue_delay_remaining_ms == old(progress).queue_delay_remaining_ms,
                progress.whitelist == old(progress).whitelist,
                progress.generation == old(progress).generation,
                progress.stage_started_at == old(progress).stage_started_at,
            decreases results.len() - i,
        {
            let result = &results[i];
            let failed = result.error.is_some();
            let error = match &result.error {
                Some(e) => Some(e.clone()),
                None => None,
            };
            let warnings = clone_strings(&result.warnings);
            progress.sources[i].status = if failed {
                SourceStatus::Failed
            } else {
                SourceStatus::Completed
            };
            progress.sources[i].cache_hit = Some(result.cache_hit);
            progress.sources[i].bytes_downloaded = result.bytes_downloaded;
            progress.sources[i].download_time_ms = Some(result.download_time_ms);
            progress.sources[i].error = error;
            progress.sources[i].warnings = warnings;
            i += 1;
        }
        progress.processed_sources = progress.sources.len() as u64;
    }

    /// The record of a source whose download ended at `completed_at`
    /// with `result`.
    pub fn finished_progress(
        progress: SourceProgress,
        result: &DownloadResult,
        completed_at: String,
    ) -> (after: SourceProgress)
        ensures
            is_recorded(
                SourceProgress { completed_at: progress.completed_at, ..after },
                progress,
                *result,
            ),
            after.completed_at == Some(completed_at),
    {
        let mut after = progress;
        after.status = if result.error.is_some() {
            SourceStatus::Failed
        } else {
            SourceStatus::Completed
        };
        after.cache_hit = Some(result.cache_hit);
        after.bytes_downloaded = result.bytes_downloaded;
        after.download_time_ms = Some(result.download_time_ms);
        after.error = match &result.error {
            Some(e) => Some(e.clone()),
            None => None,
        };
        after.warnings = clone_strings(&result.warnings);
        after.completed_at = Some(completed_at);
        after
    }

    /// Whether every download failed, so that the job fails with
    /// "All source downloads failed".
    pub fn all_failed(results: &Vec<DownloadResult>) -> (r: bool)
        ensures
            r == (forall|i: int| 0 <= i < results@.len() ==> (#[trigger] results@[i]).error is Some),
    {
        let mut i: usize = 0;
        while i < results.len()
            invariant
                i <= results.len(),
                forall|j: int| 0 <= j < i ==> (#[trigger] results@[j]).error is Some,
            decreases results.len() - i,
        {
            if results[i].error.is_none() {
                return false;
            }
            i += 1;
        }
        true
    }

    /// The domains that the bytes of a source name: see `domains_of`.
    pub fn extract_domains(extractor: &DomainExtractor, content: &Vec<u8>) -> (domains: Vec<String>)
        ensures
            strings(domains@) == domains_of(content@).reverse(),
            strings(domains@).to_set() == domains_of(content@).to_set(),
            domains@.len() == domains_of(content@).len(),
    {
        let text = from_utf8_lossy(content.as_slice());
        let mut found = extractor.extract_from_content(text.as_str());
        let ghost all = domains_of(content@);
        proof {
            assert(all =~= domains_of_results(result_views(found@)));
        }
        let ghost whole = found@;
        let mut domains: Vec<String> = Vec::new();
        while found.len() > 0
            invariant
                found@.len() <= whole.len(),
                whole.len() == all.len(),
                all == domains_of_results(result_views(whole)),
                found@ == whole.take(found@.len() as int),
                domains@.len() == whole.len() - found@.len(),
                forall|k: int|
                    0 <= k < domains@.len() ==> (#[trigger] domains@[k])@ == all[all.len() - 1 - k],
            decreases found.len(),
        {
            let ghost at = found@.len() - 1;
            let result = found.pop().unwrap();
            assert(result == whole[at]);
            assert(all[at] == result@.domain);
            domains.push(result.domain);
        }
        proof {
            let s = strings(domains@);
            assert forall|d: Seq<char>| s.to_set().contains(d) <==> all.to_set().contains(d) by {
                if s.contains(d) {
                    let k = choose|k: int| 0 <= k < s.len() && s[k] == d;
                    assert(all[all.len() - 1 - k] == d);
                }
                if all.contains(d) {
                    let k = choose|k: int| 0 <= k < all.len() && all[k] == d;
                    assert(s[all.len() - 1 - k] == d);
                }
            }
            assert(s.to_set() =~= all.to_set());
            assert(s =~= all.reverse());
        }
        domains
    }

    /// Extracts the domains of every usable download and puts them into
    /// the bucket of the category of their source. The record of each such
    /// source takes the number of domains that the source names, and the
    /// change from the build before where that is known. Returns the
    /// domains by category, and the domain counts to note in the cache.
    pub fn extraction_stage(
        extractor: &DomainExtractor,
        results: &Vec<DownloadResult>,
        progress: &mut JobProgress,
    ) -> (r: (CategoryDomains, Vec<DomainCountUpdate>))
        ensures
            r.0@ == buckets_of(results@),
            update_views(r.1@) == updates_of(results@),
            domains_noted(*final(progress), *old(progress), results@),
    {
        let mut category_domains = CategoryDomains::new();
        let mut updates: Vec<DomainCountUpdate> = Vec::new();
        let mut i: usize = 0;
        proof {
            assert(results@.take(0) =~= Seq::<DownloadResult>::empty());
            assert(update_views(updates@) =~= Seq::<(Seq<char>, u64)>::empty());
        }
        while i < results.len()
            invariant
                i <= results.len(),
                category_domains@ == buckets_of(results@.take(i as int)),
                update_views(updates@) == updates_of(results@.take(i as int)),
                progress.sources@ == records_after(old(progress).sources@, results@.take(i as int)),
                progress.current_step == old(progress).current_step,
                progress.stage == old(progress).stage,
                progress.total_sources == old(progress).total_sources,
                progress.processed_sources == old(progress).processed_sources,
                progress.current_source == old(progress).current_source,
                progress.queue_position == old(progress).queue_position,
                progress.queue_delay_remaining_ms == old(progress).queue_delay_remaining_ms,
                progress.whitelist == old(progress).whitelist,
                progress.generation == old(progress).generation,
                progress.stage_started_at == old(progress).stage_started_at,
            decreases results.len() - i,
        {
            proof {
                let p = results@.take(i + 1);
                assert(p.drop_last() =~= results@.take(i as int));
                assert(p.last() == results@[i as int]);
            }
            let result = &results[i];
            i += 1;
            if result.error.is_some() {
                continue ;
            }
            let content = match &result.content {
                Some(bytes) => bytes,
                None => {
                    continue ;
                },
            };
            let domains = Self::extract_domains(extractor, content);
            let count = domains.len() as u64;
            let change = match result.previous_domain_count {
                Some(previous) => {
                    let d: i128 = count as i128 - previous as i128;
                    Some(
                        if d > i64::MAX as i128 {
                            i64::MAX
                        } else if d < i64::MIN as i128 {
                            i64::MIN
                        } else {
                            d as i64
                        },
                    )
                },
                None => None,
            };
            let category = match &result.source.category {
                Some(c) => Some(c.clone()),
                None => None,
            };
            category_domains.add(category, domains);
            match Self::find_record(&progress.sources, result.url_hash.as_str()) {
                Some(k) => {
                    let ghost before = progress.sources@;
                    progress.sources[k].domain_count = Some(count);
                    progress.sources[k].domain_change = change;
                    assert(progress.sources@ =~= before.update(
                        k as int,
                        counted(before[k as int], count, change),
                    ));
                },
                None => {},
            }
            let ghost old_updates = update_views(updates@);
            let update = DomainCountUpdate { url_hash: result.url_hash.clone(), domain_count: count };
            updates.push(update);
            assert(update_views(updates@) =~= old_updates.push((result.url_hash@, count)));
        }
        assert(results@.take(results.len() as int) =~= results@);
        (category_domains, updates)
    }

    /// The index of the first record with the identifier `id`.
    fn find_record(records: &Vec<SourceProgress>, id: &str) -> (r: Option<usize>)
        ensures
            match r {
                Some(i) => first_record(records@, id@) == Some(i as int) && i < records.len(),
                None => first_record(records@, id@) is None,
            },
    {
        let mut i: usize = 0;
        while i < records.len()
            invariant
                i <= records.len(),
                forall|j: int| 0 <= j < i ==> (#[trigger] records@[j]).id@ != id@,
            decreases records.len() - i,
        {
            if str_eq(records[i].id.as_str(), id) {
                proof {
                    lemma_first_record(records@, id@);
                }
                return Some(i);
            }
            i += 1;
        }
        proof {
            lemma_first_record(records@, id@);
        }
        None
    }
}

} // verus!

verus! {

/// The sorted domains of one category.
pub struct CategoryList {
    pub category: Option<String>,
    pub domains: Vec<String>,
}

/// What the generator is to write: the sorted domains of every category,
/// and those of the combined list.
pub struct GenerationPlan {
    pub categories: Vec<CategoryList>,
    pub all_domains: Vec<String>,
}

/// The domains of `s` that the whitelist made of `ps` does not cover.
pub open spec fn kept_set(ps: Seq<PatternView>, s: Set<Seq<char>>) -> Set<Seq<char>> {
    s.filter(|d: Seq<char>| !whitelisted(ps, d))
}

/// The buckets after the whitelist: each keeps what the whitelist does
/// not cover, and a bucket that keeps nothing is dropped.
pub open spec fn filtered_buckets(ps: Seq<PatternView>, buckets: Seq<BucketView>) -> Seq<BucketView>
    decreases buckets.len(),
{
    if buckets.len() == 0 {
        Seq::empty()
    } else {
        let rest = filtered_buckets(ps, buckets.drop_last());
        let kept = kept_set(ps, buckets.last().domains);
        if kept == Set::<Seq<char>>::empty() {
            rest
        } else {
            rest.push(BucketView { category: buckets.last().category, domains: kept })
        }
    }
}

/// Whether `after` is `before` with the record of the whitelist stage:
/// `all` are the domains before the whitelist made of `ps`, `left` those
/// after it; the report on the patterns is drawn up over all domains
/// that were removed.
pub open spec fn whitelist_noted(
    after: JobProgress,
    before: JobProgress,
    ps: Seq<PatternView>,
    all: Set<Seq<char>>,
    left: Set<Seq<char>>,
) -> bool {
    &&& after.sources == before.sources
    &&& after.processed_sources == before.processed_sources
    &&& after.current_step == before.current_step
    &&& after.stage == before.stage
    &&& after.total_sources == before.total_sources
    &&& after.current_source == before.current_source
    &&& after.queue_position == before.queue_position
    &&& after.queue_delay_remaining_ms == before.queue_delay_remaining_ms
    &&& after.generation == before.generation
    &&& after.stage_started_at == before.stage_started_at
    &&& after.whitelist matches Some(w) && w.domains_before == all.len() && w.domains_after
        == left.len() && w.total_removed == (if all.len() >= left.len() {
        all.len() - left.len()
    } else {
        0
    }) && !w.processing && match_views(w.patterns@) == report_of(ps, removed_set(ps, all))
}

/// Whether the category is left out of the combined list.
pub open spec fn is_left_out(category: Option<Seq<char>>) -> bool {
    category == Some("nsfw"@)
}

/// The domains of the combined list: those of every category but the one
/// that is left out.
pub open spec fn combined_set(buckets: Seq<BucketView>) -> Set<Seq<char>>
    decreases buckets.len(),
{
    if buckets.len() == 0 {
        Set::empty()
    } else if is_left_out(buckets.last().category) {
        combined_set(buckets.drop_last())
    } else {
        combined_set(buckets.drop_last()).union(buckets.last().domains)
    }
}

/// Whether `plan` is what the generator is to write for `buckets`: every
/// category has its list, in the order of the buckets, with exactly its
/// domains in strictly ascending order; the combined list holds every
/// domain of every category but the one that is left out, in strictly
/// ascending order.
pub open spec fn is_generation_plan(plan: GenerationPlan, buckets: Seq<BucketView>) -> bool {
    &&& plan.categories@.len() == buckets.len()
    &&& forall|i: int|
        0 <= i < buckets.len() ==> {
            let list = #[trigger] plan.categories@[i];
            &&& category_view(list.category) == buckets[i].category
            &&& strings(list.domains@).to_set() == buckets[i].domains
            &&& is_strictly_sorted(strings(list.domains@))
        }
    &&& strings(plan.all_domains@).to_set() == combined_set(buckets)
    &&& is_strictly_sorted(strings(plan.all_domains@))
}

/// How many of `results` have no error.
pub open spec fn succeeded(results: Seq<DownloadResult>) -> nat
    decreases results.len(),
{
    if results.len() == 0 {
        0
    } else {
        succeeded(results.drop_last()) + if results.last().error is None {
            1nat
        } else {
            0nat
        }
    }
}

/// The domain counts of all `records` together.
pub open spec fn counts_sum(records: Seq<SourceProgress>) -> nat
    decreases records.len(),
{
    if records.len() == 0 {
        0
    } else {
        counts_sum(records.drop_last()) + match records.last().domain_count {
            Some(n) => n as nat,
            None => 0nat,
        }
    }
}

/// The name of the first file of the combined list.
pub open spec fn combined_hosts_name() -> Seq<char> {
    "all_domains_hosts.txt.gz"@
}

/// The number of unique domains of a build: the domain count of the first
/// file of the combined list, or zero where it was not written.
pub open spec fn unique_domains_of(files: Seq<FileView>) -> u64 {
    match crate::pipeline::known_count(files, combined_hosts_name()) {
        Some(n) => n,
        None => 0,
    }
}

/// The index of the pair of `pairs` for `name`.
pub open spec fn pair_index(pairs: Seq<(Seq<char>, u64)>, name: Seq<char>) -> Option<int>
    decreases pairs.len(),
{
    if pairs.len() == 0 {
        None
    } else {
        match pair_index(pairs.drop_last(), name) {
            Some(i) => Some(i),
            None => if pairs.last().0 == name {
                Some(pairs.len() - 1)
            } else {
                None
            },
        }
    }
}

/// Whether the file tells the domain count of a category: it is written
/// in the hosts format and does not belong to the combined list.
pub open spec fn tells_category_count(file: FileView) -> bool {
    !has_prefix(file.name, "all_domains"@) && file.format == "hosts"@
}

/// The domain count of every category that `files` tell of, in the order
/// in which they first name it; of several counts for a category the last
/// one stays.
pub open spec fn category_counts(files: Seq<FileView>) -> Seq<(Seq<char>, u64)>
    decreases files.len(),
{
    if files.len() == 0 {
        Seq::empty()
    } else {
        let rest = category_counts(files.drop_last());
        let f = files.last();
        if tells_category_count(f) {
            let name = category_of_file(f.name);
            match pair_index(rest, name) {
                Some(i) => rest.update(i, (name, f.domain_count)),
                None => rest.push((name, f.domain_count)),
            }
        } else {
            rest
        }
    }
}

/// The list with the name `name` and `count` domains as a build writes it
/// to the record of its tenant at `now`: public, in all formats.
pub open spec fn built_list(name: Seq<char>, count: u64, now: i64) -> ListView {
    ListView {
        name,
        is_public: true,
        formats: all_formats(),
        domain_count: count,
        last_updated: now,
    }
}

/// The lists of the categories with the domain counts `pairs`.
pub open spec fn category_lists(pairs: Seq<(Seq<char>, u64)>, now: i64) -> Seq<ListView> {
    pairs.map_values(|p: (Seq<char>, u64)| built_list(p.0, p.1, now))
}

/// The lists of a build: one for every category that `files` tell of,
/// and the combined list at the end.
pub open spec fn built_lists(files: Seq<FileView>, unique_domains: u64, now: i64) -> Seq<ListView> {
    category_lists(category_counts(files), now).push(
        built_list("all_domains"@, unique_domains, now),
    )
}

pub proof fn lemma_pair_index(pairs: Seq<(Seq<char>, u64)>, name: Seq<char>)
    ensures
        match pair_index(pairs, name) {
            Some(i) => {
                &&& 0 <= i < pairs.len()
                &&& pairs[i].0 == name
                &&& forall|j: int| 0 <= j < i ==> (#[trigger] pairs[j]).0 != name
            },
            None => forall|j: int| 0 <= j < pairs.len() ==> (#[trigger] pairs[j]).0 != name,
        },
    decreases pairs.len(),
{
    if pairs.len() > 0 {
        let front = pairs.drop_last();
        lemma_pair_index(front, name);
        assert forall|j: int| 0 <= j < front.len() implies pairs[j] == front[j] by {}
    }
}

/// Every bucket that is left after the whitelist is for a category that
/// had a bucket before.
pub proof fn lemma_filtered_categories(ps: Seq<PatternView>, buckets: Seq<BucketView>)
    ensures
        forall|k: int|
            0 <= k < filtered_buckets(ps, buckets).len() ==> exists|j: int|
                0 <= j < buckets.len() && (#[trigger] buckets[j]).category == (
                #[trigger] filtered_buckets(ps, buckets)[k]).category,
    decreases buckets.len(),
{
    if buckets.len() > 0 {
        let front = buckets.drop_last();
        lemma_filtered_categories(ps, front);
        let out = filtered_buckets(ps, buckets);
        let rest = filtered_buckets(ps, front);
        assert forall|k: int| 0 <= k < out.len() implies exists|j: int|
            0 <= j < buckets.len() && (#[trigger] buckets[j]).category == (#[trigger] out[k]).category by {
            if k < rest.len() {
                assert(out[k] == rest[k]);
                let j = choose|j: int|
                    0 <= j < front.len() && (#[trigger] front[j]).category == rest[k].category;
                assert(buckets[j].category == out[k].category);
            } else {
                assert(buckets[buckets.len() - 1].category == out[k].category);
            }
        }
    }
}

proof fn lemma_counts_sum_grows(records: Seq<SourceProgress>, k: int)
    requires
        0 <= k <= records.len(),
    ensures
        counts_sum(records.take(k)) <= counts_sum(records),
    decreases records.len() - k,
{
    if k == records.len() {
        assert(records.take(k) =~= records);
    } else {
        lemma_counts_sum_grows(records.drop_last(), k);
        assert(records.drop_last().take(k) =~= records.take(k));
    }
}

impl JobProcessor {
    /// Applies the whitelist `whitelist_content` to the domains of every
    /// category. A category that keeps no domain is dropped. The progress
    /// takes the record of the stage: the numbers of unique domains before
    /// and after, how many were removed, and the report on the patterns,
    /// which is drawn up over all domains together. Returns the domains
    /// that are left, and the number of unique domains that were removed.
    pub fn whitelist_stage(
        whitelist_content: &str,
        category_domains: CategoryDomains,
        progress: &mut JobProgress,
    ) -> (r: (CategoryDomains, u64))
        ensures
            r.0@ == filtered_buckets(parse_whitelist(whitelist_content@), category_domains@),
            r.1 == union_of(category_domains@).len() - kept_set(
                parse_whitelist(whitelist_content@),
                union_of(category_domains@),
            ).len(),
            whitelist_noted(
                *final(progress),
                *old(progress),
                parse_whitelist(whitelist_content@),
                union_of(category_domains@),
                union_of(r.0@),
            ),
    {
        let ghost ps = parse_whitelist(whitelist_content@);
        let ghost before_buckets = category_domains@;
        let all = category_domains.all_unique();
        let domains_before = all.len() as u64;
        let whitelist = WhitelistManager::from_content(whitelist_content);
        let (kept_all, total_removed, pattern_matches) = whitelist.filter(&all);
        let ghost order = all.order();
        proof {
            assert(kept_all@ =~= kept_set(ps, all@));
            law_report_ignores_order(ps, order);
        }
        let buckets = category_domains.buckets();
        let mut filtered = CategoryDomains::new();
        let mut i: usize = 0;
        proof {
            assert(before_buckets.take(0) =~= Seq::<BucketView>::empty());
        }
        while i < buckets.len()
            invariant
                i <= buckets.len(),
                whitelist@ == ps,
                bucket_views(buckets@) == before_buckets,
                distinct_categories(before_buckets),
                filtered@ == filtered_buckets(ps, before_buckets.take(i as int)),
            decreases buckets.len() - i,
        {
            proof {
                let p = before_buckets.take(i + 1);
                assert(p.drop_last() =~= before_buckets.take(i as int));
                assert(p.last() == buckets@[i as int]@);
            }
            let bucket = &buckets[i];
            let remaining = whitelist.without_whitelisted(&bucket.domains);
            proof {
                assert(remaining@ =~= kept_set(ps, bucket.domains@));
            }
            if !remaining.is_empty() {
                let category = match &bucket.category {
                    Some(c) => Some(c.clone()),
                    None => None,
                };
                proof {
                    let key = category_view(category);
                    let front = before_buckets.take(i as int);
                    lemma_filtered_categories(ps, front);
                    crate::processor::lemma_bucket_index(filtered@, key);
                    if crate::processor::bucket_index(filtered@, key) is Some {
                        let k = crate::processor::bucket_index(filtered@, key).unwrap();
                        let j = choose|j: int|
                            0 <= j < front.len() && (#[trigger] front[j]).category
                                == filtered@[k].category;
                        assert(before_buckets[j].category == before_buckets[i as int].category);
                    }
                }
                filtered.add(category, remaining.into_vec());
            }
            i += 1;
        }
        assert(before_buckets.take(buckets.len() as int) =~= before_buckets);
        let domains_after = filtered.total_count() as u64;
        let record = whitelist.create_progress(domains_before, domains_after, pattern_matches);
        progress.whitelist = Some(record);
        (filtered, total_removed)
    }

    /// Sorts the domains of every category, and those of the combined
    /// list, for the generator. The combined list holds every domain of
    /// every category but `nsfw`, once.
    pub fn generation_stage(category_domains: CategoryDomains) -> (plan: GenerationPlan)
        ensures
            is_generation_plan(plan, category_domains@),
    {
        let ghost before = category_domains@;
        let mut combined = DomainSet::new();
        let nsfw = "nsfw";
        {
            let buckets = category_domains.buckets();
            let mut i: usize = 0;
            proof {
                assert(before.take(0) =~= Seq::<BucketView>::empty());
            }
            while i < buckets.len()
                invariant
                    i <= buckets.len(),
                    nsfw@ == "nsfw"@,
                    bucket_views(buckets@) == before,
                    combined@ == combined_set(before.take(i as int)),
                decreases buckets.len() - i,
            {
                proof {
                    let p = before.take(i + 1);
                    assert(p.drop_last() =~= before.take(i as int));
                    assert(p.last() == buckets@[i as int]@);
                }
                let left_out = match &buckets[i].category {
                    Some(c) => str_eq(c.as_str(), nsfw),
                    None => false,
                };
                if !left_out {
                    combined.extend_from(&buckets[i].domains);
                }
                i += 1;
            }
            assert(before.take(buckets.len() as int) =~= before);
        }
        let mut rest = category_domains.into_buckets();
        let mut categories: Vec<CategoryList> = Vec::new();
        while rest.len() > 0
            invariant
                categories@.len() + rest@.len() == before.len(),
                bucket_views(rest@) == before.skip(categories@.len() as int),
                forall|i: int|
                    0 <= i < categories@.len() ==> {
                        let list = #[trigger] categories@[i];
                        &&& category_view(list.category) == before[i].category
                        &&& strings(list.domains@).to_set() == before[i].domains
                        &&& is_strictly_sorted(strings(list.domains@))
                    },
            decreases rest.len(),
        {
            let ghost done = categories@.len() as int;
            let ghost views = bucket_views(rest@);
            let bucket = rest.remove(0);
            proof {
                assert(bucket@ == views[0]);
                assert(bucket_views(rest@) =~= views.remove(0));
                assert(views.remove(0) =~= before.skip(done + 1));
            }
            let CategoryBucket { category, domains } = bucket;
            let sorted = domains.into_sorted();
            categories.push(CategoryList { category, domains: sorted });
        }
        let all_domains = combined.into_sorted();
        GenerationPlan { categories, all_domains }
    }

    /// The result of a build: how many downloads succeeded and failed, how
    /// many domains the sources name in all, how many unique domains the
    /// combined list holds, how many the whitelist removed, and the files.
    pub fn job_result(
        results: &Vec<DownloadResult>,
        progress: &JobProgress,
        output_files: Vec<OutputFile>,
        whitelist_removed: u64,
    ) -> (result: JobResult)
        requires
            counts_sum(progress.sources@) <= u64::MAX,
        ensures
            result.has_counts(
                succeeded(results@) as u64,
                (results@.len() - succeeded(results@)) as u64,
                counts_sum(progress.sources@) as u64,
                unique_domains_of(file_views(output_files@)),
                whitelist_removed,
            ),
            result.output_files == output_files,
            result.categories@.len() == 0,
            result.errors@.len() == 0,
            result.skip_reason is None,
            result.copied_from is None,
    {
        let mut processed: u64 = 0;
        let mut failed: u64 = 0;
        let mut i: usize = 0;
        assert(results@.take(0) =~= Seq::<DownloadResult>::empty());
        while i < results.len()
            invariant
                i <= results.len(),
                processed == succeeded(results@.take(i as int)),
                processed + failed == i,
            decreases results.len() - i,
        {
            proof {
                let p = results@.take(i + 1);
                assert(p.drop_last() =~= results@.take(i as int));
                assert(p.last() == results@[i as int]);
            }
            if results[i].error.is_none() {
                processed += 1;
            } else {
                failed += 1;
            }
            i += 1;
        }
        assert(results@.take(results.len() as int) =~= results@);
        let mut total: u64 = 0;
        let mut k: usize = 0;
        let ghost records = progress.sources@;
        assert(records.take(0) =~= Seq::<SourceProgress>::empty());
        while k < progress.sources.len()
            invariant
                k <= progress.sources.len(),
                records == progress.sources@,
                counts_sum(records) <= u64::MAX,
                total == counts_sum(records.take(k as int)),
            decreases progress.sources.len() - k,
        {
            proof {
                let p = records.take(k + 1);
                assert(p.drop_last() =~= records.take(k as int));
                assert(p.last() == records[k as int]);
                lemma_counts_sum_grows(records, k + 1);
            }
            match progress.sources[k].domain_count {
                Some(n) => {
                    total = total + n;
                },
                None => {},
            }
            k += 1;
        }
        assert(records.take(progress.sources.len() as int) =~= records);
        let unique = match crate::pipeline::first_named(&output_files, "all_domains_hosts.txt.gz") {
            Some(n) => n,
            None => 0,
        };
        JobResult::success(processed, failed, total, unique, whitelist_removed, output_files)
    }

    /// The index of the first of `lists` with the name `name`.
    fn find_list(lists: &Vec<ListMetadata>, name: &str) -> (r: Option<usize>)
        ensures
            match r {
                Some(f) => f < lists.len() && lists@[f as int].name@ == name@ && forall|j: int|
                    0 <= j < f ==> (#[trigger] list_views(lists@)[j]).name != name@,
                None => forall|j: int|
                    0 <= j < lists.len() ==> (#[trigger] list_views(lists@)[j]).name != name@,
            },
    {
        let mut k: usize = 0;
        while k < lists.len()
            invariant
                k <= lists.len(),
                forall|j: int| 0 <= j < k ==> (#[trigger] list_views(lists@)[j]).name != name@,
            decreases lists.len() - k,
        {
            assert(list_views(lists@)[k as int] == lists@[k as int]@);
            if str_eq(lists[k].name.as_str(), name) {
                return Some(k);
            }
            k += 1;
        }
        None
    }

    /// The lists that a build writes to the record of its tenant at `now`:
    /// see `built_lists`.
    pub fn build_lists(output_files: &Vec<OutputFile>, unique_domains: u64, now: i64) -> (lists: Vec<
        ListMetadata,
    >)
        ensures
            list_views(lists@) == built_lists(file_views(output_files@), unique_domains, now),
    {
        let ghost views = file_views(output_files@);
        let mut lists: Vec<ListMetadata> = Vec::new();
        let combined = to_chars("all_domains");
        let hosts = "hosts";
        let mut i: usize = 0;
        proof {
            assert(views.take(0) =~= Seq::<FileView>::empty());
            assert(list_views(lists@) =~= category_lists(category_counts(views.take(0)), now));
        }
        while i < output_files.len()
            invariant
                i <= output_files.len(),
                views == file_views(output_files@),
                combined@ == "all_domains"@,
                hosts@ == "hosts"@,
                list_views(lists@) == category_lists(category_counts(views.take(i as int)), now),
            decreases output_files.len() - i,
        {
            proof {
                let p = views.take(i + 1);
                assert(p.drop_last() =~= views.take(i as int));
                assert(p.last() == output_files@[i as int]@);
            }
            let file = &output_files[i];
            let name = to_chars(file.name.as_str());
            if !starts_with(&name, &combined) && str_eq(file.format.as_str(), hosts) {
                let cut = find_char(&name, '_');
                let category = string_of(&name, 0, cut);
                proof {
                    assert(name@.subrange(0, cut as int) =~= name@.take(cut as int));
                }
                let ghost pairs = category_counts(views.take(i as int));
                let ghost before = list_views(lists@);
                proof {
                    lemma_pair_index(pairs, category@);
                    assert forall|j: int| 0 <= j < pairs.len() implies (#[trigger] pairs[j]).0
                        == before[j].name by {
                        assert(before[j] == built_list(pairs[j].0, pairs[j].1, now));
                    }
                }
                match Self::find_list(&lists, category.as_str()) {
                    Some(f) => {
                        proof {
                            assert(pairs.len() == before.len());
                            assert(before[f as int] == lists@[f as int]@);
                            assert(before[f as int] == built_list(
                                pairs[f as int].0,
                                pairs[f as int].1,
                                now,
                            ));
                            assert(pair_index(pairs, category@) == Some(f as int));
                        }
                        lists[f].domain_count = file.domain_count;
                        proof {
                            let next = pairs.update(f as int, (category@, file.domain_count));
                            assert forall|j: int| 0 <= j < next.len() implies list_views(lists@)[j]
                                == category_lists(next, now)[j] by {
                                assert(list_views(lists@)[j] == lists@[j]@);
                                if j != f {
                                    assert(before[j] == built_list(pairs[j].0, pairs[j].1, now));
                                }
                            }
                            assert(list_views(lists@) =~= category_lists(next, now));
                        }
                    },
                    None => {
                        proof {
                            assert(pairs.len() == before.len());
                            assert(pair_index(pairs, category@) is None);
                        }
                        let item = ListMetadata {
                            name: category,
                            is_public: true,
                            formats: formats(),
                            domain_count: file.domain_count,
                            last_updated: now,
                        };
                        lists.push(item);
                        proof {
                            let next = pairs.push((item.name@, file.domain_count));
                            assert forall|j: int| 0 <= j < next.len() implies list_views(lists@)[j]
                                == category_lists(next, now)[j] by {
                                assert(list_views(lists@)[j] == lists@[j]@);
                                if j < pairs.len() {
                                    assert(before[j] == built_list(pairs[j].0, pairs[j].1, now));
                                }
                            }
                            assert(list_views(lists@) =~= category_lists(next, now));
                        }
                    },
                }
            }
            i += 1;
        }
        assert(views.take(output_files.len() as int) =~= views);
        let ghost before = list_views(lists@);
        let last = ListMetadata {
            name: "all_domains".to_string(),
            is_public: true,
            formats: formats(),
            domain_count: unique_domains,
            last_updated: now,
        };
        lists.push(last);
        assert(list_views(lists@) =~= before.push(last@));
        lists
    }
}

} // verus!
