//! Blocklist sources: the configuration language that lists them, and the
//! rules of a download, from the cache lookup to the result.

use crate::config::Config;
use crate::db::cache::{
    first_entry, fresh_entries, has_valid_entry, recounted, CacheRepository, CacheStore,
};
use crate::db::progress::{SourceProgress, SourceStatus};
use crate::hashing::{sha256_hex, sha256_hex_of};
use crate::numbers::{decimal_text, push_decimal};
use crate::text::{
    find_char, index_of, lines, slice_of, split_lines, string_of, texts, trim, trim_chars,
};
use crate::urls::{parse_host, url_host_of, url_parses};
use vstd::hash_set::StringHashSet;
use vstd::prelude::*;
use vstd::string::StringExecFns;
use vstd::utf8::encode_utf8;

verus! {

/// The most bytes that one source may have: 100 MiB.
pub const MAX_SOURCE_SIZE_BYTES: u64 = 104857600;

/// A blocklist source as the configuration names it.
#[derive(Debug, Clone)]
pub struct Source {
    pub name: String,
    pub url: String,
    pub category: Option<String>,
}

/// The mathematical value of a `Source`.
pub struct SourceView {
    pub name: Seq<char>,
    pub url: Seq<char>,
    pub category: Option<Seq<char>>,
}

impl View for Source {
    type V = SourceView;

    open spec fn view(&self) -> SourceView {
        SourceView {
            name: self.name@,
            url: self.url@,
            category: match self.category {
                Some(c) => Some(c@),
                None => None,
            },
        }
    }
}

/// What the download of one source gave.
#[derive(Debug)]
pub struct DownloadResult {
    pub source: Source,
    pub url_hash: String,
    /// The bytes of the source, where it was had.
    pub content: Option<Vec<u8>>,
    pub cache_hit: bool,
    pub bytes_downloaded: u64,
    pub download_time_ms: u64,
    pub error: Option<String>,
    pub warnings: Vec<String>,
    /// The domain count of the build before, where the cache knows it.
    pub previous_domain_count: Option<u64>,
}

/// The part of a worker that downloads sources.
pub struct Downloader {
    config: Config,
}

/// The values of a list of sources.
pub open spec fn source_views(sources: Seq<Source>) -> Seq<SourceView> {
    sources.map_values(|s: Source| s@)
}

/// The field of `s` with the number `k`, counting from zero, where fields
/// are parted by `|`; none where `s` has fewer fields.
pub open spec fn field(s: Seq<char>, k: nat) -> Option<Seq<char>>
    decreases k,
{
    let i = index_of(s, '|');
    if k == 0 {
        Some(s.take(i))
    } else if i >= s.len() {
        None
    } else {
        field(s.skip(i + 1), (k - 1) as nat)
    }
}

/// The source that a line of the configuration names. The line is trimmed;
/// an empty line and a line that begins with `#` name none. The first field
/// is the URL, which must parse as an absolute URL; the second is the name,
/// for which the host of the URL stands in, or `Unknown`; the third is the
/// category. Each field is trimmed; further fields are not looked at.
pub open spec fn source_of_line(line: Seq<char>) -> Option<SourceView> {
    let t = trim(line);
    if t.len() == 0 || t[0] == '#' {
        None
    } else {
        let url = trim(field(t, 0).unwrap());
        if !url_parses(url) {
            None
        } else {
            Some(
                SourceView {
                    name: match field(t, 1) {
                        Some(f) => trim(f),
                        None => match url_host_of(url) {
                            Some(h) => h,
                            None => "Unknown"@,
                        },
                    },
                    url,
                    category: match field(t, 2) {
                        Some(f) => Some(trim(f)),
                        None => None,
                    },
                },
            )
        }
    }
}

/// Whether one of `sources` has the URL `url`.
pub open spec fn has_url(sources: Seq<SourceView>, url: Seq<char>) -> bool {
    exists|k: int| 0 <= k < sources.len() && (#[trigger] sources[k]).url == url
}

/// The sources that a list of lines names, in the order of the lines. Of
/// two lines with the same URL the first counts.
pub open spec fn sources_of_lines(ls: Seq<Seq<char>>) -> Seq<SourceView>
    decreases ls.len(),
{
    if ls.len() == 0 {
        Seq::empty()
    } else {
        let rest = sources_of_lines(ls.drop_last());
        match source_of_line(ls.last()) {
            Some(s) => if has_url(rest, s.url) {
                rest
            } else {
                rest.push(s)
            },
            None => rest,
        }
    }
}

/// The sources that a configuration text names.
pub open spec fn parsed_config(content: Seq<char>) -> Seq<SourceView> {
    sources_of_lines(lines(content))
}

/// The key of a URL in the cache: the SHA-256 of its bytes, in hexadecimal.
pub open spec fn url_hash_of(url: Seq<char>) -> Seq<char> {
    sha256_hex_of(encode_utf8(url))
}

/// How many line feeds `bytes` holds.
pub open spec fn count_newlines(bytes: Seq<u8>) -> nat
    decreases bytes.len(),
{
    if bytes.len() == 0 {
        0
    } else {
        count_newlines(bytes.drop_last()) + if bytes.last() == 10u8 {
            1nat
        } else {
            0nat
        }
    }
}

/// The first three fields of `t`.
fn split_fields(t: &Vec<char>) -> (r: (Vec<char>, Option<Vec<char>>, Option<Vec<char>>))
    ensures
        field(t@, 0) == Some(r.0@),
        match r.1 {
            Some(f) => field(t@, 1) == Some(f@),
            None => field(t@, 1) is None,
        },
        match r.2 {
            Some(f) => field(t@, 2) == Some(f@),
            None => field(t@, 2) is None,
        },
{
    reveal_with_fuel(field, 3);
    let i0 = find_char(t, '|');
    let f0 = slice_of(t, 0, i0);
    assert(t@.subrange(0, i0 as int) =~= t@.take(i0 as int));
    if i0 == t.len() {
        return (f0, None, None);
    }
    let rest1 = slice_of(t, i0 + 1, t.len());
    assert(rest1@ =~= t@.skip(i0 + 1));
    let i1 = find_char(&rest1, '|');
    let f1 = slice_of(&rest1, 0, i1);
    assert(rest1@.subrange(0, i1 as int) =~= rest1@.take(i1 as int));
    if i1 == rest1.len() {
        return (f0, Some(f1), None);
    }
    let rest2 = slice_of(&rest1, i1 + 1, rest1.len());
    assert(rest2@ =~= rest1@.skip(i1 + 1));
    let i2 = find_char(&rest2, '|');
    let f2 = slice_of(&rest2, 0, i2);
    assert(rest2@.subrange(0, i2 as int) =~= rest2@.take(i2 as int));
    (f0, Some(f1), Some(f2))
}

/// The string of all of `v`.
fn whole_string(v: &Vec<char>) -> (s: String)
    ensures
        s@ == v@,
{
    assert(v@.subrange(0, v.len() as int) =~= v@);
    string_of(v, 0, v.len())
}

/// The source that a line names: see `source_of_line`.
fn parse_source_line(line: &Vec<char>) -> (r: Option<Source>)
    ensures
        match r {
            Some(s) => source_of_line(line@) == Some(s@),
            None => source_of_line(line@) is None,
        },
{
    let t = trim_chars(line);
    if t.len() == 0 || t[0] == '#' {
        return None;
    }
    let (first, second, third) = split_fields(&t);
    let url = whole_string(&trim_chars(&first));
    let host = match parse_host(url.as_str()) {
        Ok(host) => host,
        Err(_) => {
            return None;
        },
    };
    let name = match second {
        Some(f) => whole_string(&trim_chars(&f)),
        None => match host {
            Some(h) => h,
            None => "Unknown".to_string(),
        },
    };
    let category = match third {
        Some(f) => Some(whole_string(&trim_chars(&f))),
        None => None,
    };
    Some(Source { name, url, category })
}

impl DownloadResult {
    /// Whether this is the result for `source` under the key `url_hash`
    /// after `elapsed_ms` milliseconds.
    pub open spec fn is_for(&self, source: Source, url_hash: String, elapsed_ms: u64) -> bool {
        &&& self.source == source
        &&& self.url_hash == url_hash
        &&& self.download_time_ms == elapsed_ms
        &&& self.previous_domain_count is None
    }

    /// Whether this is a result with `content` that came from the cache.
    pub open spec fn is_hit(&self, content: Vec<u8>) -> bool {
        &&& self.content == Some(content)
        &&& self.cache_hit
        &&& self.bytes_downloaded == 0
        &&& self.error is None
        &&& self.warnings@.len() == 0
    }

    /// Whether this is a result with `content` that was downloaded.
    pub open spec fn is_fetched(&self, content: Vec<u8>, warnings: Vec<String>) -> bool {
        &&& self.content == Some(content)
        &&& !self.cache_hit
        &&& self.bytes_downloaded == content@.len()
        &&& self.error is None
        &&& self.warnings == warnings
    }

    /// Whether this is the result of a download that failed with `error`.
    pub open spec fn is_failure(&self, error: Seq<char>) -> bool {
        &&& self.content is None
        &&& !self.cache_hit
        &&& self.bytes_downloaded == 0
        &&& self.error matches Some(e) && e@ == error
        &&& self.warnings@.len() == 0
    }

    /// The result of a source whose bytes the cache had.
    pub fn hit(source: Source, url_hash: String, content: Vec<u8>, elapsed_ms: u64) -> (r:
        DownloadResult)
        ensures
            r.is_for(source, url_hash, elapsed_ms),
            r.is_hit(content),
    {
        DownloadResult {
            source,
            url_hash,
            content: Some(content),
            cache_hit: true,
            bytes_downloaded: 0,
            download_time_ms: elapsed_ms,
            error: None,
            warnings: Vec::new(),
            previous_domain_count: None,
        }
    }

    /// The result of a source whose bytes were downloaded.
    pub fn fetched(
        source: Source,
        url_hash: String,
        content: Vec<u8>,
        warnings: Vec<String>,
        elapsed_ms: u64,
    ) -> (r: DownloadResult)
        ensures
            r.is_for(source, url_hash, elapsed_ms),
            r.is_fetched(content, warnings),
    {
        let bytes_downloaded = content.len() as u64;
        DownloadResult {
            source,
            url_hash,
            content: Some(content),
            cache_hit: false,
            bytes_downloaded,
            download_time_ms: elapsed_ms,
            error: None,
            warnings,
            previous_domain_count: None,
        }
    }

    /// The result of a source whose download failed.
    pub fn failed(source: Source, url_hash: String, error: String, elapsed_ms: u64) -> (r:
        DownloadResult)
        ensures
            r.is_for(source, url_hash, elapsed_ms),
            r.is_failure(error@),
    {
        DownloadResult {
            source,
            url_hash,
            content: None,
            cache_hit: false,
            bytes_downloaded: 0,
            download_time_ms: elapsed_ms,
            error: Some(error),
            warnings: Vec::new(),
            previous_domain_count: None,
        }
    }
}

/// What the cache said of a source.
pub enum CacheLookup {
    /// The cache has these bytes.
    Hit(Vec<u8>),
    /// The cache has nothing.
    Miss,
    /// The cache could not be read.
    Failed(String),
}

/// A download that waits for what the cache says.
pub struct PendingLookup {
    pub source: Source,
    pub url_hash: String,
}

/// A download that waits for the answer to its request.
pub struct PendingFetch {
    pub source: Source,
    pub url_hash: String,
}

/// What follows the cache lookup.
pub enum LookupStep {
    /// The download is over: the cache had the bytes.
    Done(DownloadResult),
    /// The source is to be requested.
    Fetch(PendingFetch),
}

/// The head of a response.
pub struct ResponseHead {
    /// Whether the status is one of success (2xx).
    pub success: bool,
    /// The status as text.
    pub status: String,
    /// The `Content-Length` header, where it is there and is a number.
    pub content_length: Option<u64>,
    /// The `ETag` header.
    pub etag: Option<String>,
    /// The `Last-Modified` header.
    pub last_modified: Option<String>,
}

/// A download that reads the body of its response. It never holds more than
/// the most that a source may have.
pub struct BodyReader {
    source: Source,
    url_hash: String,
    etag: Option<String>,
    last_modified: Option<String>,
    content: Vec<u8>,
}

/// A downloaded source that is to be written to the cache.
pub struct StoreRequest {
    pub source: Source,
    pub url_hash: String,
    pub content: Vec<u8>,
    pub etag: Option<String>,
    pub last_modified: Option<String>,
    /// The number of line feeds in the content, a first guess at its domains.
    pub domain_count: i64,
    pub warnings: Vec<String>,
}

/// The error of a response whose status is not one of success.
pub open spec fn status_error(status: Seq<char>, url: Seq<char>) -> Seq<char> {
    "HTTP "@ + status + " for "@ + url
}

/// The error of a request that got no response.
pub open spec fn request_error(url: Seq<char>) -> Seq<char> {
    "Failed to fetch "@ + url
}

/// The error of a response that announces more bytes than a source may have.
pub open spec fn announced_size_error(length: u64) -> Seq<char> {
    "Source file too large: "@ + decimal_text(length as nat) + " bytes (max "@ + decimal_text(
        MAX_SOURCE_SIZE_BYTES as nat,
    ) + " bytes)"@
}

/// The error of a body that has more bytes than a source may have.
pub open spec fn body_size_error() -> Seq<char> {
    "Source file exceeds size limit during download (max "@ + decimal_text(
        MAX_SOURCE_SIZE_BYTES as nat,
    ) + " bytes)"@
}

/// The error that the head of a response gives rise to, if any: a status
/// that is not one of success, or an announced length over the limit.
pub open spec fn head_error(head: ResponseHead, url: Seq<char>) -> Option<Seq<char>> {
    if !head.success {
        Some(status_error(head.status@, url))
    } else {
        match head.content_length {
            Some(n) => if n > MAX_SOURCE_SIZE_BYTES {
                Some(announced_size_error(n))
            } else {
                None
            },
            None => None,
        }
    }
}

impl PendingLookup {
    /// What follows the cache lookup: with the bytes from the cache the
    /// download is over; without them, or where the cache could not be read,
    /// the source is to be requested.
    pub fn resolve(self, lookup: CacheLookup, elapsed_ms: u64) -> (step: LookupStep)
        ensures
            match lookup {
                CacheLookup::Hit(content) => step matches LookupStep::Done(r) && r.is_for(
                    self.source,
                    self.url_hash,
                    elapsed_ms,
                ) && r.is_hit(content),
                _ => step matches LookupStep::Fetch(f) && f.source == self.source && f.url_hash
                    == self.url_hash,
            },
    {
        match lookup {
            CacheLookup::Hit(content) => LookupStep::Done(
                DownloadResult::hit(self.source, self.url_hash, content, elapsed_ms),
            ),
            _ => LookupStep::Fetch(PendingFetch { source: self.source, url_hash: self.url_hash }),
        }
    }
}

impl PendingFetch {
    /// The result of a request that got no response.
    pub fn request_failed(self, elapsed_ms: u64) -> (r: DownloadResult)
        ensures
            r.is_for(self.source, self.url_hash, elapsed_ms),
            r.is_failure(request_error(self.source.url@)),
    {
        let mut error = "Failed to fetch ".to_string();
        error.append(self.source.url.as_str());
        DownloadResult::failed(self.source, self.url_hash, error, elapsed_ms)
    }

    /// What follows the head of the response: the body is read, unless the
    /// head gives rise to an error.
    pub fn response(self, head: ResponseHead) -> (r: Result<BodyReader, String>)
        ensures
            match r {
                Ok(reader) => head_error(head, self.source.url@) is None && reader.source()
                    == self.source && reader.url_hash() == self.url_hash && reader.etag()
                    == head.etag && reader.last_modified() == head.last_modified && reader@
                    == Seq::<u8>::empty(),
                Err(e) => head_error(head, self.source.url@) == Some(e@),
            },
    {
        if !head.success {
            let mut error = "HTTP ".to_string();
            error.append(head.status.as_str());
            error.append(" for ");
            error.append(self.source.url.as_str());
            return Err(error);
        }
        match head.content_length {
            Some(n) => {
                if n > MAX_SOURCE_SIZE_BYTES {
                    let mut error = "Source file too large: ".to_string();
                    push_decimal(&mut error, n);
                    error.append(" bytes (max ");
                    push_decimal(&mut error, MAX_SOURCE_SIZE_BYTES);
                    error.append(" bytes)");
                    return Err(error);
                }
            },
            None => {},
        }
        Ok(
            BodyReader {
                source: self.source,
                url_hash: self.url_hash,
                etag: head.etag,
                last_modified: head.last_modified,
                content: Vec::new(),
            },
        )
    }
}

impl View for BodyReader {
    type V = Seq<u8>;

    closed spec fn view(&self) -> Seq<u8> {
        self.content@
    }
}

impl BodyReader {
    #[verifier::type_invariant]
    spec fn within_limit(self) -> bool {
        self.content@.len() <= MAX_SOURCE_SIZE_BYTES
    }

    pub closed spec fn source(&self) -> Source {
        self.source
    }

    pub closed spec fn url_hash(&self) -> String {
        self.url_hash
    }

    pub closed spec fn etag(&self) -> Option<String> {
        self.etag
    }

    pub closed spec fn last_modified(&self) -> Option<String> {
        self.last_modified
    }

    /// Whether `other` reads the same download.
    pub open spec fn same_download(&self, other: &BodyReader) -> bool {
        &&& self.source() == other.source()
        &&& self.url_hash() == other.url_hash()
        &&& self.etag() == other.etag()
        &&& self.last_modified() == other.last_modified()
    }

    /// Takes one more chunk of the body. The chunk is accepted as long as
    /// the body stays within the limit: exactly the limit is fine, one byte
    /// more is not.
    pub fn push_chunk(self, chunk: &[u8]) -> (r: Result<BodyReader, String>)
        ensures
            match r {
                Ok(reader) => reader@ == self@ + chunk@ && reader.same_download(&self) && self@.len()
                    + chunk@.len() <= MAX_SOURCE_SIZE_BYTES,
                Err(e) => e@ == body_size_error() && self@.len() + chunk@.len()
                    > MAX_SOURCE_SIZE_BYTES,
            },
    {
        proof {
            use_type_invariant(&self);
        }
        let BodyReader { source, url_hash, etag, last_modified, mut content } = self;
        if chunk.len() as u64 > MAX_SOURCE_SIZE_BYTES - content.len() as u64 {
            let mut error = "Source file exceeds size limit during download (max ".to_string();
            push_decimal(&mut error, MAX_SOURCE_SIZE_BYTES);
            error.append(" bytes)");
            return Err(error);
        }
        content.extend_from_slice(chunk);
        Ok(BodyReader { source, url_hash, etag, last_modified, content })
    }

    /// The result of a body that could not be read to its end.
    pub fn read_failed(self, elapsed_ms: u64) -> (r: DownloadResult)
        ensures
            r.is_for(self.source(), self.url_hash(), elapsed_ms),
            r.is_failure("Error reading response chunk"@),
    {
        DownloadResult::failed(
            self.source,
            self.url_hash,
            "Error reading response chunk".to_string(),
            elapsed_ms,
        )
    }

    /// The result of a body that went over the limit, or of another error
    /// that ends the download.
    pub fn failed(self, error: String, elapsed_ms: u64) -> (r: DownloadResult)
        ensures
            r.is_for(self.source(), self.url_hash(), elapsed_ms),
            r.is_failure(error@),
    {
        DownloadResult::failed(self.source, self.url_hash, error, elapsed_ms)
    }

    /// Ends the body: what is to be written to the cache. An empty body
    /// gets a warning; the line feeds are counted as a first guess at the
    /// number of domains.
    pub fn finish(self) -> (r: StoreRequest)
        ensures
            r.source == self.source(),
            r.url_hash == self.url_hash(),
            r.etag == self.etag(),
            r.last_modified == self.last_modified(),
            r.content@ == self@,
            r.domain_count == count_newlines(self@),
            self@.len() == 0 ==> r.warnings@.len() == 1 && r.warnings@[0]@
                == "Downloaded empty file"@,
            self@.len() > 0 ==> r.warnings@.len() == 0,
    {
        proof {
            use_type_invariant(&self);
        }
        let mut warnings: Vec<String> = Vec::new();
        if self.content.len() == 0 {
            warnings.push("Downloaded empty file".to_string());
        }
        let mut count: i64 = 0;
        let mut i: usize = 0;
        assert(self.content@.take(0) =~= Seq::<u8>::empty());
        while i < self.content.len()
            invariant
                i <= self.content.len() <= MAX_SOURCE_SIZE_BYTES,
                count == count_newlines(self.content@.take(i as int)),
                count <= i,
            decreases self.content.len() - i,
        {
            proof {
                let p = self.content@.take(i + 1);
                assert(p.drop_last() =~= self.content@.take(i as int));
                assert(p.last() == self.content@[i as int]);
            }
            if self.content[i] == 10u8 {
                count += 1;
            }
            i += 1;
        }
        assert(self.content@.take(self.content.len() as int) =~= self.content@);
        StoreRequest {
            source: self.source,
            url_hash: self.url_hash,
            content: self.content,
            etag: self.etag,
            last_modified: self.last_modified,
            domain_count: count,
            warnings,
        }
    }
}

impl StoreRequest {
    /// The result of the download once the cache has been written: the
    /// content with its warnings, or the error of the cache.
    pub fn stored(self, outcome: Result<(), String>, elapsed_ms: u64) -> (r: DownloadResult)
        ensures
            r.is_for(self.source, self.url_hash, elapsed_ms),
            match outcome {
                Ok(_) => r.is_fetched(self.content, self.warnings),
                Err(e) => r.is_failure(e@),
            },
    {
        match outcome {
            Ok(_) => DownloadResult::fetched(
                self.source,
                self.url_hash,
                self.content,
                self.warnings,
                elapsed_ms,
            ),
            Err(e) => DownloadResult::failed(self.source, self.url_hash, e, elapsed_ms),
        }
    }
}

/// How many of `slots` are filled.
pub open spec fn filled(slots: Seq<Option<DownloadResult>>) -> nat
    decreases slots.len(),
{
    if slots.len() == 0 {
        0
    } else {
        filled(slots.drop_last()) + if slots.last() is Some {
            1nat
        } else {
            0nat
        }
    }
}

/// Whether `completed`, a list of results each with the index of its source,
/// is the outcome of a batch over `sources`: every source has exactly one
/// result, and each result is for the URL of the source at its index.
pub open spec fn is_batch_outcome(
    sources: Seq<Source>,
    completed: Seq<(usize, DownloadResult)>,
) -> bool {
    &&& completed.len() == sources.len()
    &&& forall|j: int|
        0 <= j < completed.len() ==> (#[trigger] completed[j]).0 < sources.len()
            && completed[j].1.source.url@ == sources[completed[j].0 as int].url@
    &&& forall|j: int, k: int|
        0 <= j < k < completed.len() ==> (#[trigger] completed[j]).0 != (#[trigger] completed[k]).0
}

proof fn lemma_filled_bound(slots: Seq<Option<DownloadResult>>)
    ensures
        filled(slots) <= slots.len(),
        filled(slots) == slots.len() ==> forall|i: int|
            0 <= i < slots.len() ==> (#[trigger] slots[i]) is Some,
        (forall|i: int| 0 <= i < slots.len() ==> (#[trigger] slots[i]) is None) ==> filled(slots)
            == 0,
    decreases slots.len(),
{
    if slots.len() > 0 {
        lemma_filled_bound(slots.drop_last());
        if filled(slots) == slots.len() {
            assert forall|i: int| 0 <= i < slots.len() implies (#[trigger] slots[i]) is Some by {
                if i < slots.len() - 1 {
                    assert(slots.drop_last()[i] is Some);
                }
            }
        }
        if forall|i: int| 0 <= i < slots.len() ==> (#[trigger] slots[i]) is None {
            assert forall|i: int| 0 <= i < slots.drop_last().len() implies (
            #[trigger] slots.drop_last()[i]) is None by {
                assert(slots[i] is None);
            }
        }
    }
}

proof fn lemma_filled_update(slots: Seq<Option<DownloadResult>>, i: int, r: DownloadResult)
    requires
        0 <= i < slots.len(),
        slots[i] is None,
    ensures
        filled(slots.update(i, Some(r))) == filled(slots) + 1,
    decreases slots.len(),
{
    let next = slots.update(i, Some(r));
    if i == slots.len() - 1 {
        assert(next.drop_last() =~= slots.drop_last());
    } else {
        lemma_filled_update(slots.drop_last(), i, r);
        assert(next.drop_last() =~= slots.drop_last().update(i, Some(r)));
    }
}

impl Downloader {
    /// The downloader of a worker with the settings `config`.
    pub fn new(config: Config) -> (d: Downloader)
        ensures
            d.config() == config,
    {
        Downloader { config }
    }

    /// The settings.
    pub closed spec fn config(&self) -> Config {
        self.config
    }

    /// The number of downloads that may run at once.
    pub fn max_concurrent_downloads(&self) -> (n: usize)
        ensures
            n == self.config().max_concurrent_downloads,
    {
        self.config.max_concurrent_downloads
    }

    /// The days after which a cache entry is stale.
    pub fn cache_ttl_days(&self) -> (n: u64)
        ensures
            n == self.config().cache_ttl_days,
    {
        self.config.cache_ttl_days
    }

    /// The seconds after which a request is given up.
    pub fn http_timeout_secs(&self) -> (n: u64)
        ensures
            n == self.config().http_timeout_secs,
    {
        self.config.http_timeout_secs
    }

    /// Whether the cache has a valid entry for every one of `sources` at
    /// `now`: then a build would download nothing.
    pub fn check_all_cached(&self, cache: &CacheStore, sources: &Vec<Source>, now: i64) -> (all: bool)
        ensures
            all == (forall|i: int|
                0 <= i < sources@.len() ==> has_valid_entry(
                    cache@,
                    url_hash_of((#[trigger] sources@[i]).url@),
                    now,
                )),
    {
        let repository = CacheRepository::new();
        let mut i: usize = 0;
        while i < sources.len()
            invariant
                i <= sources.len(),
                forall|j: int|
                    0 <= j < i ==> has_valid_entry(
                        cache@,
                        url_hash_of((#[trigger] sources@[j]).url@),
                        now,
                    ),
            decreases sources.len() - i,
        {
            let url_hash = Downloader::hash_url(sources[i].url.as_str());
            if !repository.has_valid_cache(cache, url_hash.as_str(), now) {
                return false;
            }
            i += 1;
        }
        true
    }

    /// Notes in the cache at `now` how many domains the source under
    /// `url_hash` gave. A count that the cache cannot hold is noted as the
    /// most that it can.
    pub fn update_domain_count(
        &self,
        cache: &mut CacheStore,
        url_hash: &str,
        domain_count: u64,
        now: i64,
    )
        ensures
            final(cache)@ == match first_entry(old(cache)@, url_hash@) {
                Some(i) => old(cache)@.update(
                    i,
                    recounted(
                        old(cache)@[i],
                        if domain_count <= i64::MAX {
                            domain_count as i64
                        } else {
                            i64::MAX
                        },
                        now,
                    ),
                ),
                None => old(cache)@,
            },
    {
        let count: i64 = if domain_count <= i64::MAX as u64 {
            domain_count as i64
        } else {
            i64::MAX
        };
        CacheRepository::new().update_domain_count(cache, url_hash, count, now);
    }

    /// Removes from the cache the entries that are stale at `now` by the
    /// settings of this worker, and says how many they were.
    pub fn cleanup_cache(&self, cache: &mut CacheStore, now: i64) -> (removed: u64)
        ensures
            final(cache)@ == fresh_entries(old(cache)@, now, self.ttl_days()),
            removed == old(cache)@.len() - final(cache)@.len(),
    {
        let days: i64 = if self.config.cache_ttl_days <= i64::MAX as u64 {
            self.config.cache_ttl_days as i64
        } else {
            i64::MAX
        };
        CacheRepository::new().cleanup_stale(cache, days, now)
    }

    /// The days after which a cache entry is stale, as the cache counts them.
    pub open spec fn ttl_days(&self) -> i64 {
        if self.config().cache_ttl_days <= i64::MAX {
            self.config().cache_ttl_days as i64
        } else {
            i64::MAX
        }
    }

    /// The key of a URL in the cache.
    pub fn hash_url(url: &str) -> (hash: String)
        ensures
            hash@ == url_hash_of(url@),
    {
        sha256_hex(url.as_bytes())
    }

    /// The sources that a configuration text names: see `parsed_config`.
    pub fn parse_config(content: &str) -> (sources: Vec<Source>)
        ensures
            source_views(sources@) == parsed_config(content@),
    {
        let all = split_lines(content);
        let mut sources: Vec<Source> = Vec::new();
        let mut seen = StringHashSet::new();
        let mut i: usize = 0;
        proof {
            assert(texts(all@).take(0) =~= Seq::<Seq<char>>::empty());
            assert(source_views(sources@) =~= Seq::<SourceView>::empty());
        }
        while i < all.len()
            invariant
                i <= all.len(),
                source_views(sources@) == sources_of_lines(texts(all@).take(i as int)),
                forall|u: Seq<char>| seen@.contains(u) <==> has_url(source_views(sources@), u),
            decreases all.len() - i,
        {
            proof {
                let p = texts(all@).take(i + 1);
                assert(p.drop_last() =~= texts(all@).take(i as int));
                assert(p.last() == all[i as int]@);
            }
            match parse_source_line(&all[i]) {
                Some(source) => {
                    if !seen.contains(source.url.as_str()) {
                        let ghost before = source_views(sources@);
                        seen.insert(source.url.clone());
                        sources.push(source);
                        proof {
                            let after = source_views(sources@);
                            assert(after =~= before.push(source@));
                            assert forall|u: Seq<char>| seen@.contains(u) <==> has_url(
                                after,
                                u,
                            ) by {
                                if has_url(after, u) {
                                    let k = choose|k: int|
                                        0 <= k < after.len() && (#[trigger] after[k]).url == u;
                                    if k < before.len() {
                                        assert(before[k].url == u);
                                    }
                                }
                                if has_url(before, u) {
                                    let k = choose|k: int|
                                        0 <= k < before.len() && (#[trigger] before[k]).url == u;
                                    assert(after[k].url == u);
                                }
                                if u == source.url@ {
                                    assert(after[before.len() as int].url == u);
                                }
                            }
                        }
                    }
                },
                None => {},
            }
            i += 1;
        }
        assert(texts(all@).take(all.len() as int) =~= texts(all@));
        sources
    }

    /// Begins the download of `source`: the cache is to be asked first.
    pub fn download_source(source: &Source) -> (p: PendingLookup)
        ensures
            p.source@ == source@,
            p.url_hash@ == url_hash_of(source.url@),
    {
        PendingLookup {
            source: Source {
                name: source.name.clone(),
                url: source.url.clone(),
                category: match &source.category {
                    Some(c) => Some(c.clone()),
                    None => None,
                },
            },
            url_hash: Downloader::hash_url(source.url.as_str()),
        }
    }

    /// The progress record of a source whose download began at `started_at`.
    pub fn started_progress(source: &Source, started_at: String) -> (p: SourceProgress)
        ensures
            p.id@ == url_hash_of(source.url@),
            p.name@ == source.name@,
            p.url@ == source.url@,
            p.status == SourceStatus::Downloading,
            p.cache_hit is None,
            p.bytes_downloaded == 0,
            p.bytes_total is None,
            p.download_time_ms is None,
            p.domain_count is None,
            p.domain_change is None,
            p.error is None,
            p.warnings@.len() == 0,
            p.started_at == Some(started_at),
            p.completed_at is None,
    {
        let mut p = SourceProgress::pending(
            Downloader::hash_url(source.url.as_str()),
            source.name.clone(),
            source.url.clone(),
        );
        p.status = SourceStatus::Downloading;
        p.started_at = Some(started_at);
        p
    }

    /// Puts the results of a batch into the order of its sources. The
    /// downloads of a batch end in any order; `completed` lists each result
    /// with the index of its source. The answer holds, at every index, the
    /// result of the source at that index. There is none where `completed`
    /// is not the outcome of a batch over `sources`.
    pub fn download_sources(sources: &Vec<Source>, completed: Vec<(usize, DownloadResult)>) -> (r:
        Option<Vec<DownloadResult>>)
        ensures
            r is Some <==> is_batch_outcome(sources@, completed@),
            r matches Some(results) ==> {
                &&& results@.len() == sources@.len()
                &&& forall|i: int|
                    0 <= i < results@.len() ==> (#[trigger] results@[i]).source.url@
                        == sources@[i].url@
                &&& forall|j: int|
                    0 <= j < completed@.len() ==> results@[(#[trigger] completed@[j]).0 as int]
                        == completed@[j].1
            },
    {
        let count = sources.len();
        if completed.len() != count {
            return None;
        }
        let mut slots: Vec<Option<DownloadResult>> = Vec::new();
        while slots.len() < count
            invariant
                slots.len() <= count,
                forall|i: int| 0 <= i < slots.len() ==> (#[trigger] slots@[i]) is None,
            decreases count - slots.len(),
        {
            slots.push(None);
        }
        proof {
            lemma_filled_bound(slots@);
        }
        let mut rest = completed;
        while rest.len() > 0
            invariant
                slots.len() == count == sources.len() == completed.len(),
                rest.len() <= completed.len(),
                rest@ == completed@.take(rest.len() as int),
                filled(slots@) == completed.len() - rest.len(),
                forall|j: int|
                    rest.len() <= j < completed.len() ==> (#[trigger] completed@[j]).0 < count
                        && slots@[completed@[j].0 as int] == Some(completed@[j].1)
                        && completed@[j].1.source.url@ == sources@[completed@[j].0 as int].url@,
                forall|j: int, k: int|
                    rest.len() <= j < k < completed.len() ==> (#[trigger] completed@[j]).0 != (
                    #[trigger] completed@[k]).0,
                forall|i: int|
                    0 <= i < count && (#[trigger] slots@[i]) is Some ==> exists|j: int|
                        rest.len() <= j < completed.len() && (#[trigger] completed@[j]).0 == i,
            decreases rest.len(),
        {
            let ghost at = rest.len() - 1;
            let (index, result) = rest.pop().unwrap();
            assert(completed@[at] == (index, result));
            if index >= count {
                return None;
            }
            if slots[index].is_some() {
                proof {
                    let j = choose|j: int|
                        at < j < completed.len() && (#[trigger] completed@[j]).0 == index;
                    assert(completed@[at].0 == completed@[j].0);
                }
                return None;
            }
            if !crate::text::str_eq(result.source.url.as_str(), sources[index].url.as_str()) {
                return None;
            }
            proof {
                lemma_filled_update(slots@, index as int, result);
            }
            let ghost before = slots@;
            slots[index] = Some(result);
            assert(slots@ == before.update(index as int, Some(result)));
            assert forall|j: int| at <= j < completed.len() implies (#[trigger] completed@[j]).0
                < count && slots@[completed@[j].0 as int] == Some(completed@[j].1) by {
                if j > at {
                    assert(before[completed@[j].0 as int] == Some(completed@[j].1));
                    assert(completed@[j].0 != index);
                }
            }
            assert forall|j: int, k: int| at <= j < k < completed.len() implies (
            #[trigger] completed@[j]).0 != (#[trigger] completed@[k]).0 by {
                if j == at {
                    assert(before[completed@[k].0 as int] == Some(completed@[k].1));
                }
            }
            assert forall|i: int| 0 <= i < count && (#[trigger] slots@[i]) is Some implies exists|
                j: int,
            |
                at <= j < completed.len() && (#[trigger] completed@[j]).0 == i by {
                if i == index {
                    assert(completed@[at].0 == i);
                } else {
                    assert(before[i] is Some);
                    let j = choose|j: int|
                        at < j < completed.len() && (#[trigger] completed@[j]).0 == i;
                    assert(completed@[j].0 == i);
                }
            }
        }
        proof {
            lemma_filled_bound(slots@);
        }
        let ghost full = slots@;
        let mut reversed: Vec<DownloadResult> = Vec::new();
        while slots.len() > 0
            invariant
                slots.len() <= count == full.len(),
                slots@ == full.take(slots.len() as int),
                reversed.len() == count - slots.len(),
                forall|i: int| 0 <= i < count ==> (#[trigger] full[i]) is Some,
                forall|k: int|
                    0 <= k < reversed.len() ==> Some(#[trigger] reversed@[k]) == full[count - 1 - k],
            decreases slots.len(),
        {
            let ghost at = slots.len() - 1;
            let slot = slots.pop().unwrap();
            assert(slot == full[at]);
            match slot {
                Some(r) => {
                    reversed.push(r);
                },
                None => {},
            }
        }
        let ghost backwards = reversed@;
        let mut results: Vec<DownloadResult> = Vec::new();
        while reversed.len() > 0
            invariant
                reversed.len() <= count == backwards.len(),
                reversed@ == backwards.take(reversed.len() as int),
                results.len() == count - reversed.len(),
                forall|m: int|
                    0 <= m < results.len() ==> (#[trigger] results@[m]) == backwards[count - 1 - m],
            decreases reversed.len(),
        {
            let ghost at = reversed.len() - 1;
            let r = reversed.pop().unwrap();
            assert(r == backwards[at]);
            results.push(r);
        }
        proof {
            assert forall|i: int| 0 <= i < count implies Some(#[trigger] results@[i]) == full[i] by {
                assert(results@[i] == backwards[count - 1 - i]);
                assert(Some(backwards[count - 1 - i]) == full[count - 1 - (count - 1 - i)]);
            }
            assert forall|j: int| 0 <= j < completed@.len() implies results@[(
            #[trigger] completed@[j]).0 as int] == completed@[j].1 by {
                assert(full[completed@[j].0 as int] == Some(completed@[j].1));
            }
            assert forall|i: int| 0 <= i < results@.len() implies (
            #[trigger] results@[i]).source.url@ == sources@[i].url@ by {
                assert(full[i] is Some);
                let j = choose|j: int| 0 <= j < completed.len() && (#[trigger] completed@[j]).0 == i;
                assert(full[completed@[j].0 as int] == Some(completed@[j].1));
            }
        }
        Some(results)
    }
}

} // verus!
