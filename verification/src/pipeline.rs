//! The steps of a job between its outside work. The worker loads, downloads
//! and writes; what it does with what it got, and in which order, is
//! decided here.

use crate::db::progress::{
    file_views, CategoryCount, FileView, JobProgress, JobResult, JobStage, OutputFile,
};
use crate::db::user::{copy_strings, list_views, BuildOutcome, ListMetadata, ListView, MatchedUser};
use crate::downloader::{parsed_config, source_views, Downloader, Source};
use crate::processor::{config_fingerprint_of, config_hash_of, JobProcessor};
use crate::text::{
    find_char, find_last_char, has_prefix, has_suffix, index_of, last_index_of, slice_of,
    starts_with, str_eq, string_of, strings, suffix_free_len, to_chars, without_suffix,
};
use vstd::hash_set::StringHashSet;
use vstd::prelude::*;
use vstd::string::StringExecFns;

verus! {

/// What a job is to build.
pub struct BuildPlan {
    pub sources: Vec<Source>,
    /// The hash of the configuration as it was written.
    pub config_hash: String,
    /// The hash of the configuration in its canonical form.
    pub config_fingerprint: String,
}

/// What follows the loading of the configuration.
pub enum ConfigStep {
    /// The job fails with these errors.
    Fail(Vec<String>),
    /// The job goes on with this plan.
    Plan(BuildPlan),
}

/// What a job that copied the output of another tenant gives.
pub struct CopyOutcome {
    /// The result of the job.
    pub result: JobResult,
    /// The progress of the job, which is at its end.
    pub progress: JobProgress,
    /// What is written to the record of the tenant.
    pub lists: Vec<ListMetadata>,
    pub unique_domains: u64,
    pub total_output_size: u64,
}

/// The reason that a skipped job gives.
pub open spec fn skip_message() -> Seq<char> {
    "No changes detected since last build. All sources are cached and configuration unchanged."@
}

/// The text setting `value`, or nothing where it could not be had.
pub open spec fn text_or_empty(value: Result<String, String>) -> Seq<char> {
    match value {
        Ok(t) => t@,
        Err(_) => Seq::empty(),
    }
}

/// Whether `name` is the name of an output file.
pub open spec fn is_output_name(name: Seq<char>) -> bool {
    has_suffix(name, ".txt.gz"@)
}

/// The name of an output file without its extension.
pub open spec fn base_name(name: Seq<char>) -> Seq<char> {
    without_suffix(name, ".txt.gz"@)
}

/// The format that the base name of an output file names: what follows its
/// last underscore, or `unknown` where it has none.
pub open spec fn format_of(base: Seq<char>) -> Seq<char> {
    let i = last_index_of(base, '_');
    if i >= 0 {
        base.skip(i + 1)
    } else {
        "unknown"@
    }
}

/// The list that the base name of an output file names: what stands before
/// its last underscore, or all of it where it has none.
pub open spec fn list_name_of(base: Seq<char>) -> Seq<char> {
    let i = last_index_of(base, '_');
    if i >= 0 {
        base.take(i)
    } else {
        base
    }
}

/// The category that the name of an output file begins with: what stands
/// before its first underscore.
pub open spec fn category_of_file(name: Seq<char>) -> Seq<char> {
    name.take(index_of(name, '_'))
}

/// The domain count of the first of `lists` whose name `base` begins with,
/// or zero where there is none.
pub open spec fn listed_count(lists: Seq<ListView>, base: Seq<char>) -> u64
    decreases lists.len(),
{
    if lists.len() == 0 {
        0
    } else if has_prefix(base, lists[0].name) {
        lists[0].domain_count
    } else {
        listed_count(lists.drop_first(), base)
    }
}

/// The description of a copied file with the name `name` and `size_bytes`
/// bytes, for the lists `lists` of the tenant it was copied from; none
/// where `name` is not the name of an output file.
pub open spec fn described(name: Seq<char>, size_bytes: u64, lists: Seq<ListView>) -> Option<
    FileView,
> {
    if is_output_name(name) {
        Some(
            FileView {
                name,
                format: format_of(base_name(name)),
                size_bytes,
                domain_count: listed_count(lists, base_name(name)),
            },
        )
    } else {
        None
    }
}

/// The domain count of the first of `files` with the name `name`.
pub open spec fn known_count(files: Seq<FileView>, name: Seq<char>) -> Option<u64>
    decreases files.len(),
{
    if files.len() == 0 {
        None
    } else if files[0].name == name {
        Some(files[0].domain_count)
    } else {
        known_count(files.drop_first(), name)
    }
}

/// `files` with the domain counts that `known` has for their names.
pub open spec fn with_known_counts(files: Seq<FileView>, known: Seq<FileView>) -> Seq<FileView> {
    files.map_values(
        |f: FileView|
            match known_count(known, f.name) {
                Some(n) => FileView { domain_count: n, ..f },
                None => f,
            },
    )
}

/// The bytes of all of `files` together.
pub open spec fn sizes_sum(files: Seq<FileView>) -> nat
    decreases files.len(),
{
    if files.len() == 0 {
        0
    } else {
        sizes_sum(files.drop_last()) + files.last().size_bytes as nat
    }
}

/// The domain count of the first of `files` whose name begins with `prefix`.
pub open spec fn count_of_first(files: Seq<FileView>, prefix: Seq<char>) -> Option<u64>
    decreases files.len(),
{
    if files.len() == 0 {
        None
    } else if has_prefix(files[0].name, prefix) {
        Some(files[0].domain_count)
    } else {
        count_of_first(files.drop_first(), prefix)
    }
}

/// The three formats in which every list is written.
pub open spec fn all_formats() -> Seq<Seq<char>> {
    seq!["hosts"@, "plain"@, "adblock"@]
}

/// Whether `lists` has a list with the name `name`.
pub open spec fn has_list(lists: Seq<ListView>, name: Seq<char>) -> bool {
    exists|k: int| 0 <= k < lists.len() && (#[trigger] lists[k]).name == name
}

/// The lists that `files` are the output of, in the order in which `files`
/// names them: each public, in all formats, with the domain count of the
/// first file that names it, updated at `now`.
pub open spec fn lists_of_files(files: Seq<FileView>, now: i64) -> Seq<ListView>
    decreases files.len(),
{
    if files.len() == 0 {
        Seq::empty()
    } else {
        let rest = lists_of_files(files.drop_last(), now);
        let name = list_name_of(base_name(files.last().name));
        if has_list(rest, name) {
            rest
        } else {
            rest.push(
                ListView {
                    name,
                    is_public: true,
                    formats: all_formats(),
                    domain_count: files.last().domain_count,
                    last_updated: now,
                },
            )
        }
    }
}

/// `lists` as they are written to the record of a tenant that copied them:
/// each public, updated at `now`.
pub open spec fn lists_as_copied(lists: Seq<ListView>, now: i64) -> Seq<ListView> {
    lists.map_values(|l: ListView| ListView { is_public: true, last_updated: now, ..l })
}

proof fn lemma_sizes_sum_grows(files: Seq<FileView>, k: int)
    requires
        0 <= k <= files.len(),
    ensures
        sizes_sum(files.take(k)) <= sizes_sum(files),
    decreases files.len() - k,
{
    if k == files.len() {
        assert(files.take(k) =~= files);
    } else {
        lemma_sizes_sum_grows(files.drop_last(), k);
        assert(files.drop_last().take(k) =~= files.take(k));
    }
}

/// The three formats in which every list is written.
pub fn formats() -> (r: Vec<String>)
    ensures
        strings(r@) == all_formats(),
{
    let mut r: Vec<String> = Vec::new();
    r.push("hosts".to_string());
    r.push("plain".to_string());
    r.push("adblock".to_string());
    assert(strings(r@) =~= all_formats());
    r
}

/// The bytes of all of `files` together.
pub fn total_size(files: &Vec<OutputFile>) -> (total: u64)
    requires
        sizes_sum(file_views(files@)) <= u64::MAX,
    ensures
        total == sizes_sum(file_views(files@)),
{
    let ghost views = file_views(files@);
    let mut total: u64 = 0;
    let mut i: usize = 0;
    assert(views.take(0) =~= Seq::<FileView>::empty());
    while i < files.len()
        invariant
            i <= files.len(),
            views == file_views(files@),
            sizes_sum(views) <= u64::MAX,
            total == sizes_sum(views.take(i as int)),
        decreases files.len() - i,
    {
        proof {
            let p = views.take(i + 1);
            assert(p.drop_last() =~= views.take(i as int));
            assert(p.last() == files@[i as int]@);
            lemma_sizes_sum_grows(views, i + 1);
        }
        total = total + files[i].size_bytes;
        i += 1;
    }
    assert(views.take(files.len() as int) =~= views);
    total
}

/// The domain count of the first of `files` whose name begins with `prefix`.
pub fn first_count(files: &Vec<OutputFile>, prefix: &str) -> (r: Option<u64>)
    ensures
        r == count_of_first(file_views(files@), prefix@),
{
    let ghost views = file_views(files@);
    let needle = to_chars(prefix);
    let mut i: usize = 0;
    assert(views.skip(0) =~= views);
    while i < files.len()
        invariant
            i <= files.len(),
            views == file_views(files@),
            needle@ == prefix@,
            count_of_first(views, prefix@) == count_of_first(views.skip(i as int), prefix@),
        decreases files.len() - i,
    {
        assert(views.skip(i as int).drop_first() =~= views.skip(i + 1));
        assert(views.skip(i as int)[0] == files@[i as int]@);
        let name = to_chars(files[i].name.as_str());
        if starts_with(&name, &needle) {
            return Some(files[i].domain_count);
        }
        i += 1;
    }
    None
}

/// The domain count of the first of `files` with the name `name`.
pub fn first_named(files: &Vec<OutputFile>, name: &str) -> (r: Option<u64>)
    ensures
        r == known_count(file_views(files@), name@),
{
    let ghost views = file_views(files@);
    let mut i: usize = 0;
    assert(views.skip(0) =~= views);
    while i < files.len()
        invariant
            i <= files.len(),
            views == file_views(files@),
            known_count(views, name@) == known_count(views.skip(i as int), name@),
        decreases files.len() - i,
    {
        assert(views.skip(i as int).drop_first() =~= views.skip(i + 1));
        assert(views.skip(i as int)[0] == files@[i as int]@);
        if str_eq(files[i].name.as_str(), name) {
            return Some(files[i].domain_count);
        }
        i += 1;
    }
    None
}

/// Gives each of `files` the domain count that `known` has for its name.
pub fn apply_known_counts(files: &mut Vec<OutputFile>, known: &Vec<OutputFile>)
    ensures
        file_views(final(files)@) == with_known_counts(
            file_views(old(files)@),
            file_views(known@),
        ),
{
    let ghost before = file_views(files@);
    let ghost after = with_known_counts(before, file_views(known@));
    let mut i: usize = 0;
    while i < files.len()
        invariant
            i <= files.len(),
            files@.len() == before.len(),
            before == file_views(old(files)@),
            after == with_known_counts(before, file_views(known@)),
            forall|j: int| 0 <= j < i ==> (#[trigger] files@[j])@ == after[j],
            forall|j: int| i <= j < files@.len() ==> (#[trigger] files@[j])@ == before[j],
        decreases files.len() - i,
    {
        match first_named(known, files[i].name.as_str()) {
            Some(n) => {
                files[i].domain_count = n;
            },
            None => {},
        }
        i += 1;
    }
    assert(file_views(files@) =~= after);
}

/// The lists of a tenant as they are written to the record of a tenant
/// that copied them: see `lists_as_copied`.
pub fn copied_lists(lists: &Vec<ListMetadata>, now: i64) -> (r: Vec<ListMetadata>)
    ensures
        list_views(r@) == lists_as_copied(list_views(lists@), now),
{
    let ghost goal = lists_as_copied(list_views(lists@), now);
    let mut r: Vec<ListMetadata> = Vec::new();
    let mut i: usize = 0;
    while i < lists.len()
        invariant
            i <= lists.len(),
            goal == lists_as_copied(list_views(lists@), now),
            list_views(r@) == goal.take(i as int),
        decreases lists.len() - i,
    {
        let ghost before = list_views(r@);
        let item = ListMetadata {
            name: lists[i].name.clone(),
            is_public: true,
            formats: copy_strings(&lists[i].formats),
            domain_count: lists[i].domain_count,
            last_updated: now,
        };
        r.push(item);
        proof {
            assert(list_views(r@) =~= before.push(item@));
            assert(goal.take(i + 1) =~= goal.take(i as int).push(goal[i as int]));
        }
        i += 1;
    }
    assert(goal.take(lists.len() as int) =~= goal);
    r
}

/// The domain count of the first of `lists` whose name `base` begins with.
fn find_listed_count(lists: &Vec<ListMetadata>, base: &Vec<char>) -> (count: u64)
    ensures
        count == listed_count(list_views(lists@), base@),
{
    let ghost views = list_views(lists@);
    let mut i: usize = 0;
    assert(views.skip(0) =~= views);
    while i < lists.len()
        invariant
            i <= lists.len(),
            views == list_views(lists@),
            listed_count(views, base@) == listed_count(views.skip(i as int), base@),
        decreases lists.len() - i,
    {
        assert(views.skip(i as int).drop_first() =~= views.skip(i + 1));
        assert(views.skip(i as int)[0] == lists@[i as int]@);
        let name = to_chars(lists[i].name.as_str());
        if starts_with(base, &name) {
            return lists[i].domain_count;
        }
        i += 1;
    }
    0
}

/// The base name of an output file, and where its last underscore is.
fn split_output_name(name: &str) -> (r: (Vec<char>, usize, Option<usize>))
    ensures
        r.1 <= r.0@.len(),
        r.0@ == name@,
        r.0@.take(r.1 as int) == base_name(name@),
        match r.2 {
            Some(i) => last_index_of(base_name(name@), '_') == i && i < r.1,
            None => last_index_of(base_name(name@), '_') == -1,
        },
{
    let chars = to_chars(name);
    let suffix = to_chars(".txt.gz");
    let n = suffix_free_len(&chars, &suffix);
    let underscore = find_last_char(&chars, n, '_');
    (chars, n, underscore)
}

/// The lists that `files` are the output of: see `lists_of_files`.
pub fn lists_from_files(files: &Vec<OutputFile>, now: i64) -> (r: Vec<ListMetadata>)
    ensures
        list_views(r@) == lists_of_files(file_views(files@), now),
{
    let ghost views = file_views(files@);
    let mut r: Vec<ListMetadata> = Vec::new();
    let mut seen = StringHashSet::new();
    let mut i: usize = 0;
    proof {
        assert(views.take(0) =~= Seq::<FileView>::empty());
        assert(list_views(r@) =~= Seq::<ListView>::empty());
    }
    while i < files.len()
        invariant
            i <= files.len(),
            views == file_views(files@),
            list_views(r@) == lists_of_files(views.take(i as int), now),
            forall|t: Seq<char>| seen@.contains(t) <==> has_list(list_views(r@), t),
        decreases files.len() - i,
    {
        proof {
            let p = views.take(i + 1);
            assert(p.drop_last() =~= views.take(i as int));
            assert(p.last() == files@[i as int]@);
        }
        let (chars, n, underscore) = split_output_name(files[i].name.as_str());
        let end = match underscore {
            Some(u) => u,
            None => n,
        };
        let name = string_of(&chars, 0, end);
        proof {
            assert(chars@.subrange(0, end as int) =~= chars@.take(n as int).take(end as int));
            assert(chars@.take(n as int).take(n as int) =~= chars@.take(n as int));
            assert(name@ == list_name_of(base_name(files@[i as int].name@)));
        }
        if !seen.contains(name.as_str()) {
            let ghost before = list_views(r@);
            let item = ListMetadata {
                name: name.clone(),
                is_public: true,
                formats: formats(),
                domain_count: files[i].domain_count,
                last_updated: now,
            };
            seen.insert(name);
            r.push(item);
            proof {
                let after = list_views(r@);
                assert(after =~= before.push(item@));
                assert forall|t: Seq<char>| seen@.contains(t) <==> has_list(after, t) by {
                    if has_list(after, t) {
                        let k = choose|k: int| 0 <= k < after.len() && (#[trigger] after[k]).name == t;
                        if k < before.len() {
                            assert(before[k].name == t);
                        }
                    }
                    if has_list(before, t) {
                        let k = choose|k: int| 0 <= k < before.len() && (#[trigger] before[k]).name == t;
                        assert(after[k].name == t);
                    }
                    if t == item.name@ {
                        assert(after[before.len() as int].name == t);
                    }
                }
            }
        }
        i += 1;
    }
    assert(views.take(files.len() as int) =~= views);
    r
}

impl JobProcessor {
    /// The processor of jobs.
    pub fn new() -> JobProcessor {
        JobProcessor {  }
    }

    /// Begins a job with the configuration of its tenant as it was loaded.
    /// Without the blocklist text the job fails; the whitelist text counts
    /// as empty where it could not be had. The job also fails where the
    /// blocklist text names no valid source. Else the job goes on with the
    /// sources and the two hashes of the configuration.
    pub fn process_job(&self, blocklists: Result<String, String>, whitelist: Result<String, String>) -> (step:
        ConfigStep)
        ensures
            match blocklists {
                Err(e) => step matches ConfigStep::Fail(errors) && errors@.len() == 1
                    && errors@[0]@ == "Failed to load config: "@ + e@,
                Ok(b) => if parsed_config(b@).len() == 0 {
                    step matches ConfigStep::Fail(errors) && errors@.len() == 1 && errors@[0]@
                        == "No valid sources in config"@
                } else {
                    step matches ConfigStep::Plan(plan) && source_views(plan.sources@)
                        == parsed_config(b@) && plan.config_hash@ == config_hash_of(
                        b@,
                        text_or_empty(whitelist),
                    ) && plan.config_fingerprint@ == config_fingerprint_of(
                        b@,
                        text_or_empty(whitelist),
                    )
                },
            },
    {
        let content = match blocklists {
            Ok(b) => b,
            Err(e) => {
                let mut message = "Failed to load config: ".to_string();
                message.append(e.as_str());
                let mut errors: Vec<String> = Vec::new();
                errors.push(message);
                return ConfigStep::Fail(errors);
            },
        };
        let allowed = match whitelist {
            Ok(w) => w,
            Err(_) => String::new(),
        };
        let config_hash = Self::compute_config_hash(content.as_str(), allowed.as_str());
        let config_fingerprint = Self::compute_config_fingerprint(
            content.as_str(),
            allowed.as_str(),
        );
        let sources = Downloader::parse_config(content.as_str());
        if sources.len() == 0 {
            let mut errors: Vec<String> = Vec::new();
            errors.push("No valid sources in config".to_string());
            return ConfigStep::Fail(errors);
        }
        ConfigStep::Plan(BuildPlan { sources, config_hash, config_fingerprint })
    }

    /// The description of a file that was copied from another tenant: see
    /// `described`.
    pub fn describe_copied_file(filename: &str, size_bytes: u64, lists: &Vec<ListMetadata>) -> (file:
        Option<OutputFile>)
        ensures
            match file {
                Some(f) => described(filename@, size_bytes, list_views(lists@)) == Some(f@),
                None => described(filename@, size_bytes, list_views(lists@)) is None,
            },
    {
        let all = to_chars(filename);
        let suffix = to_chars(".txt.gz");
        if !crate::text::ends_with(&all, &suffix) {
            return None;
        }
        let (chars, n, underscore) = split_output_name(filename);
        let base = slice_of(&chars, 0, n);
        assert(base@ =~= base_name(filename@)) by {
            assert(chars@.subrange(0, n as int) =~= chars@.take(n as int));
        }
        let format = match underscore {
            Some(u) => {
                assert(chars@.subrange(u + 1, n as int) =~= base@.skip(u + 1));
                string_of(&chars, u + 1, n)
            },
            None => "unknown".to_string(),
        };
        let domain_count = find_listed_count(lists, &base);
        Some(OutputFile { name: filename.to_string(), format, size_bytes, domain_count })
    }
}

impl BuildPlan {
    /// Whether the configuration is the one that the last build of the
    /// tenant had, given the hash that its record keeps.
    pub fn is_unchanged(&self, stored_hash: &Option<String>) -> (r: bool)
        ensures
            r == (*stored_hash matches Some(h) && h@ == self.config_hash@),
    {
        match stored_hash {
            Some(h) => str_eq(h.as_str(), self.config_hash.as_str()),
            None => false,
        }
    }

    /// Why the job is skipped, if it is: the configuration is unchanged
    /// and every source has a valid entry in the cache.
    pub fn skip_reason(unchanged: bool, all_cached: bool) -> (reason: Option<String>)
        ensures
            match reason {
                Some(r) => unchanged && all_cached && r@ == skip_message(),
                None => !(unchanged && all_cached),
            },
    {
        if unchanged && all_cached {
            Some(
                "No changes detected since last build. All sources are cached and configuration unchanged.".to_string(),
            )
        } else {
            None
        }
    }
}

/// The files of a copy with the domain counts that the last result of the
/// tenant they were copied from has for them.
pub open spec fn counted_files(last_result: Option<JobResult>, files: Seq<FileView>) -> Seq<
    FileView,
> {
    match last_result {
        Some(r) => with_known_counts(files, file_views(r.output_files@)),
        None => files,
    }
}

/// The number of unique domains of a copy: the domain count of the first
/// file of the combined list, else that of the last result of the tenant
/// that was copied from, else the total that its record keeps.
pub open spec fn copied_unique_domains(
    matched: MatchedUser,
    last_result: Option<JobResult>,
    files: Seq<FileView>,
) -> u64 {
    match count_of_first(counted_files(last_result, files), "all_domains"@) {
        Some(n) => n,
        None => match last_result {
            Some(r) => r.unique_domains,
            None => matched.total_domains,
        },
    }
}

/// The number of sources of the build that was copied.
pub open spec fn copied_source_count(last_result: Option<JobResult>) -> int {
    match last_result {
        Some(r) => r.sources_processed + r.sources_failed,
        None => 0,
    }
}

/// Whether `out` is what a job gives that copied the files `files` of the
/// tenant `matched`, whose last completed job had the result
/// `last_result`, at `now`. The result is marked as copied and takes its
/// counts from `last_result`, where there is one. The progress is at its
/// end. The lists are those of the tenant that was copied from, or, where
/// its record names none, those that the files are the output of.
pub open spec fn is_copied_outcome(
    out: CopyOutcome,
    matched: MatchedUser,
    last_result: Option<JobResult>,
    files: Seq<FileView>,
    now: i64,
) -> bool {
    &&& file_views(out.result.output_files@) == counted_files(last_result, files)
    &&& out.total_output_size == sizes_sum(counted_files(last_result, files))
    &&& out.unique_domains == copied_unique_domains(matched, last_result, files)
    &&& out.result.copied_from == Some(matched.username)
    &&& out.result.unique_domains == out.unique_domains
    &&& out.result.errors@.len() == 0
    &&& out.result.skip_reason is None
    &&& match last_result {
        Some(r) => out.result.has_counts(
            r.sources_processed,
            r.sources_failed,
            r.total_domains,
            out.unique_domains,
            r.whitelisted_removed,
        ) && out.result.categories == r.categories,
        None => out.result.has_counts(0, 0, matched.total_domains, out.unique_domains, 0)
            && out.result.categories@.len() == 0,
    }
    &&& list_views(out.lists@) == if matched.lists@.len() > 0 {
        lists_as_copied(list_views(matched.lists@), now)
    } else {
        lists_of_files(counted_files(last_result, files), now)
    }
    &&& out.progress.current_step@ == "completed"@
    &&& out.progress.stage == JobStage::Completed
    &&& out.progress.total_sources == copied_source_count(last_result)
    &&& out.progress.processed_sources == copied_source_count(last_result)
    &&& out.progress.sources@.len() == 0
    &&& out.progress.whitelist is None
    &&& out.progress.generation is None
    &&& out.progress.stage_started_at is None
}

impl JobProcessor {
    /// What a job gives that copied the output files `files` of the tenant
    /// `matched`, whose last completed job had the result `last_result`.
    /// The result is marked as copied and takes its counts from
    /// `last_result`, where there is one. The progress is at its end. The
    /// lists are those of the tenant that was copied from, or, where its
    /// record names none, those that the files are the output of.
    pub fn copied_outcome(
        matched: MatchedUser,
        last_result: Option<JobResult>,
        files: Vec<OutputFile>,
        now: i64,
    ) -> (out: CopyOutcome)
        requires
            sizes_sum(counted_files(last_result, file_views(files@))) <= u64::MAX,
            copied_source_count(last_result) <= u64::MAX,
        ensures
            is_copied_outcome(out, matched, last_result, file_views(files@), now),
    {
        let mut files = files;
        match &last_result {
            Some(r) => {
                apply_known_counts(&mut files, &r.output_files);
            },
            None => {},
        }
        let total_output_size = total_size(&files);
        let unique_domains = match first_count(&files, "all_domains") {
            Some(n) => n,
            None => match &last_result {
                Some(r) => r.unique_domains,
                None => matched.total_domains,
            },
        };
        let lists = if matched.lists.len() > 0 {
            copied_lists(&matched.lists, now)
        } else {
            lists_from_files(&files, now)
        };
        let (result, source_count) = match last_result {
            Some(r) => {
                let count = r.sources_processed + r.sources_failed;
                (
                    JobResult::copied_from_user(
                        matched.username,
                        r.total_domains,
                        unique_domains,
                        files,
                        r.sources_processed,
                        r.sources_failed,
                        r.whitelisted_removed,
                        r.categories,
                    ),
                    count,
                )
            },
            None => (
                JobResult::copied_from_user(
                    matched.username,
                    matched.total_domains,
                    unique_domains,
                    files,
                    0,
                    0,
                    0,
                    Vec::new(),
                ),
                0,
            ),
        };
        let mut progress = JobProgress::default();
        progress.current_step = "completed".to_string();
        progress.stage = JobStage::Completed;
        progress.total_sources = source_count;
        progress.processed_sources = source_count;
        CopyOutcome { result, progress, lists, unique_domains, total_output_size }
    }
}

} // verus!
