//! The content cache: the bytes of each source under the hash of its URL,
//! with what is known of them. The cache is shared between workers; each
//! operation is one step on it.

use crate::hashing::{sha256_hex, sha256_hex_of};
use crate::text::str_eq;
use vstd::prelude::*;

verus! {

/// The milliseconds of a day.
pub const MILLIS_PER_DAY: i64 = 86400000;

/// The days for which a cache entry counts as valid.
pub const VALID_DAYS: i64 = 7;

/// What is counted of a cache entry. Times are milliseconds since the Unix epoch.
#[derive(Debug, Clone)]
pub struct CacheStats {
    pub size_bytes: i64,
    pub domain_count: i64,
    pub download_count: i64,
    pub access_count: i64,
    pub last_download_at: Option<i64>,
    pub last_accessed_at: Option<i64>,
}

/// A cache entry.
#[derive(Debug, Clone)]
pub struct CacheEntry {
    /// The key: the SHA-256 of the URL, in hexadecimal.
    pub url_hash: String,
    pub url: Option<String>,
    /// The bytes of the source.
    pub content: Option<Vec<u8>>,
    pub etag: Option<String>,
    pub last_modified: Option<String>,
    /// The SHA-256 of the content, in hexadecimal.
    pub content_hash: Option<String>,
    pub stats: CacheStats,
    pub updated_at: Option<i64>,
}

/// The entries of the cache, in the order in which the database keeps them.
pub struct CacheStore {
    pub entries: Vec<CacheEntry>,
}

/// The hand of a worker on the cache.
pub struct CacheRepository {}

/// A source that is to be stored in the cache.
pub struct StoredContent<'a> {
    pub url_hash: &'a str,
    pub url: &'a str,
    pub content: &'a [u8],
    pub etag: Option<&'a str>,
    pub last_modified: Option<&'a str>,
    pub domain_count: i64,
}

/// `n` and one more, as far as the machine can count.
pub open spec fn one_more(n: i64) -> i64 {
    if n < i64::MAX {
        (n + 1) as i64
    } else {
        n
    }
}

/// The time before which an entry is older than `days` days at `now`.
pub open spec fn cutoff(now: i64, days: i64) -> int {
    now - days * MILLIS_PER_DAY
}

impl CacheEntry {
    /// Whether the entry is valid at `now`: it has content and was updated
    /// within the last seven days, the day that ends at `now` included.
    pub open spec fn is_valid_at(&self, now: i64) -> bool {
        &&& self.content is Some
        &&& self.updated_at matches Some(t) && t >= cutoff(now, VALID_DAYS)
    }

    /// Whether the entry is stale at `now`: it was last updated more than
    /// `days` days ago.
    pub open spec fn is_stale_at(&self, now: i64, days: i64) -> bool {
        self.updated_at matches Some(t) && t < cutoff(now, days)
    }

    /// Whether the entry holds what a store of `request` at `now` leaves:
    /// the content with its hash and size, the headers, the domain count,
    /// and `now` as the time of download and of update.
    pub open spec fn holds(&self, request: StoredContent, now: i64) -> bool {
        &&& self.url_hash@ == request.url_hash@
        &&& self.url matches Some(u) && u@ == request.url@
        &&& self.content matches Some(c) && c@ == request.content@
        &&& match request.etag {
            Some(e) => self.etag matches Some(s) && s@ == e@,
            None => self.etag is None,
        }
        &&& match request.last_modified {
            Some(e) => self.last_modified matches Some(s) && s@ == e@,
            None => self.last_modified is None,
        }
        &&& self.content_hash matches Some(h) && h@ == sha256_hex_of(request.content@)
        &&& self.stats.size_bytes == request.content@.len()
        &&& self.stats.domain_count == request.domain_count
        &&& self.stats.last_download_at == Some(now)
        &&& self.updated_at == Some(now)
    }
}

/// The entry after it was read at `now`.
pub open spec fn touched(entry: CacheEntry, now: i64) -> CacheEntry {
    CacheEntry {
        stats: CacheStats {
            last_accessed_at: Some(now),
            access_count: one_more(entry.stats.access_count),
            ..entry.stats
        },
        ..entry
    }
}

/// The entry after its domains were counted at `now`.
pub open spec fn recounted(entry: CacheEntry, domain_count: i64, now: i64) -> CacheEntry {
    CacheEntry {
        stats: CacheStats { domain_count, ..entry.stats },
        updated_at: Some(now),
        ..entry
    }
}

/// The index of the first entry with the key `url_hash`.
pub open spec fn first_entry(entries: Seq<CacheEntry>, url_hash: Seq<char>) -> Option<int>
    decreases entries.len(),
{
    if entries.len() == 0 {
        None
    } else {
        match first_entry(entries.drop_last(), url_hash) {
            Some(i) => Some(i),
            None => if entries.last().url_hash@ == url_hash {
                Some(entries.len() - 1)
            } else {
                None
            },
        }
    }
}

/// Whether the cache has a valid entry for `url_hash` at `now`.
pub open spec fn has_valid_entry(entries: Seq<CacheEntry>, url_hash: Seq<char>, now: i64) -> bool {
    exists|i: int|
        0 <= i < entries.len() && (#[trigger] entries[i]).url_hash@ == url_hash
            && entries[i].is_valid_at(now)
}

/// The entries that are not stale at `now`, in their order.
pub open spec fn fresh_entries(entries: Seq<CacheEntry>, now: i64, days: i64) -> Seq<CacheEntry>
    decreases entries.len(),
{
    if entries.len() == 0 {
        Seq::empty()
    } else if entries.last().is_stale_at(now, days) {
        fresh_entries(entries.drop_last(), now, days)
    } else {
        fresh_entries(entries.drop_last(), now, days).push(entries.last())
    }
}

pub proof fn lemma_first_entry(entries: Seq<CacheEntry>, url_hash: Seq<char>)
    ensures
        match first_entry(entries, url_hash) {
            Some(i) => {
                &&& 0 <= i < entries.len()
                &&& entries[i].url_hash@ == url_hash
                &&& forall|j: int| 0 <= j < i ==> (#[trigger] entries[j]).url_hash@ != url_hash
            },
            None => forall|j: int|
                0 <= j < entries.len() ==> (#[trigger] entries[j]).url_hash@ != url_hash,
        },
    decreases entries.len(),
{
    if entries.len() > 0 {
        let front = entries.drop_last();
        lemma_first_entry(front, url_hash);
        assert forall|j: int| 0 <= j < front.len() implies entries[j] == front[j] by {}
    }
}

pub proof fn lemma_fresh_entries_len(entries: Seq<CacheEntry>, now: i64, days: i64)
    ensures
        fresh_entries(entries, now, days).len() <= entries.len(),
    decreases entries.len(),
{
    if entries.len() > 0 {
        lemma_fresh_entries_len(entries.drop_last(), now, days);
    }
}

/// An entry that was updated at `now`, or up to seven days before, is
/// valid at `now`; one that was updated a millisecond earlier is not.
pub proof fn law_validity_ends_after_seven_days(entry: CacheEntry, now: i64, updated_at: i64)
    requires
        entry.content is Some,
        entry.updated_at == Some(updated_at),
    ensures
        entry.is_valid_at(now) <==> now - updated_at <= VALID_DAYS * MILLIS_PER_DAY,
{
}

fn copy_text(text: Option<&str>) -> (r: Option<String>)
    ensures
        match text {
            Some(t) => r matches Some(s) && s@ == t@,
            None => r is None,
        },
{
    match text {
        Some(t) => Some(t.to_string()),
        None => None,
    }
}

impl View for CacheStore {
    type V = Seq<CacheEntry>;

    open spec fn view(&self) -> Seq<CacheEntry> {
        self.entries@
    }
}

impl CacheStore {
    /// The empty cache.
    pub fn new() -> (s: CacheStore)
        ensures
            s@ == Seq::<CacheEntry>::empty(),
    {
        CacheStore { entries: Vec::new() }
    }
}

impl CacheRepository {
    /// The hand of a worker on the cache.
    pub fn new() -> CacheRepository {
        CacheRepository {  }
    }

    fn find(entries: &Vec<CacheEntry>, url_hash: &str) -> (r: Option<usize>)
        ensures
            match r {
                Some(i) => first_entry(entries@, url_hash@) == Some(i as int) && i < entries.len(),
                None => first_entry(entries@, url_hash@) is None,
            },
    {
        let mut i: usize = 0;
        while i < entries.len()
            invariant
                i <= entries.len(),
                forall|j: int| 0 <= j < i ==> (#[trigger] entries@[j]).url_hash@ != url_hash@,
            decreases entries.len() - i,
        {
            if str_eq(entries[i].url_hash.as_str(), url_hash) {
                proof {
                    lemma_first_entry(entries@, url_hash@);
                }
                return Some(i);
            }
            i += 1;
        }
        proof {
            lemma_first_entry(entries@, url_hash@);
        }
        None
    }

    /// The time before which an entry is older than `days` days at `now`.
    fn cutoff_at(now: i64, days: i64) -> (c: i128)
        ensures
            c == cutoff(now, days),
    {
        assert(-0x8000_0000_0000_0000 * 86400000 <= days * 86400000 <= 0x8000_0000_0000_0000
            * 86400000) by (nonlinear_arith)
            requires
                -0x8000_0000_0000_0000 <= days <= 0x8000_0000_0000_0000,
        ;
        let span: i128 = (days as i128) * (MILLIS_PER_DAY as i128);
        (now as i128) - span
    }

    /// Reads the bytes under `url_hash` at `now`. Where the entry has
    /// content, the read is counted and its time noted.
    pub fn get_content(&self, store: &mut CacheStore, url_hash: &str, now: i64) -> (r: Option<
        Vec<u8>,
    >)
        ensures
            match first_entry(old(store)@, url_hash@) {
                Some(i) => match old(store)@[i].content {
                    Some(c) => (r matches Some(bytes) && bytes@ == c@) && final(store)@ == old(
                        store,
                    )@.update(i, touched(old(store)@[i], now)),
                    None => r is None && final(store)@ == old(store)@,
                },
                None => r is None && final(store)@ == old(store)@,
            },
    {
        match Self::find(&store.entries, url_hash) {
            Some(i) => {
                let bytes = match &store.entries[i].content {
                    Some(c) => c.clone(),
                    None => {
                        return None;
                    },
                };
                let count = store.entries[i].stats.access_count;
                store.entries[i].stats.last_accessed_at = Some(now);
                store.entries[i].stats.access_count = if count < i64::MAX {
                    count + 1
                } else {
                    count
                };
                assert(store@ =~= old(store)@.update(i as int, touched(old(store)@[i as int], now)));
                Some(bytes)
            },
            None => None,
        }
    }

    /// Writes a downloaded source to the cache at `now`. The entry under
    /// its key is replaced in all but its counts of downloads and reads,
    /// of which the first grows by one; where there is none, one is added
    /// at the end with one download and no read.
    pub fn store(&self, store: &mut CacheStore, request: StoredContent, now: i64)
        requires
            request.content@.len() <= i64::MAX,
        ensures
            match first_entry(old(store)@, request.url_hash@) {
                Some(i) => {
                    &&& final(store)@.len() == old(store)@.len()
                    &&& forall|j: int|
                        0 <= j < old(store)@.len() && j != i ==> final(store)@[j] == old(store)@[j]
                    &&& final(store)@[i].holds(request, now)
                    &&& final(store)@[i].stats.download_count == one_more(
                        old(store)@[i].stats.download_count,
                    )
                    &&& final(store)@[i].stats.access_count == old(store)@[i].stats.access_count
                    &&& final(store)@[i].stats.last_accessed_at
                        == old(store)@[i].stats.last_accessed_at
                },
                None => {
                    &&& final(store)@.len() == old(store)@.len() + 1
                    &&& forall|j: int|
                        0 <= j < old(store)@.len() ==> final(store)@[j] == old(store)@[j]
                    &&& final(store)@.last().holds(request, now)
                    &&& final(store)@.last().stats.download_count == 1
                    &&& final(store)@.last().stats.access_count == 0
                    &&& final(store)@.last().stats.last_accessed_at is None
                },
            },
    {
        proof {
            lemma_first_entry(store@, request.url_hash@);
        }
        let content_hash = sha256_hex(request.content);
        let content = vstd::slice::slice_to_vec(request.content);
        let size_bytes = request.content.len() as i64;
        match Self::find(&store.entries, request.url_hash) {
            Some(i) => {
                let downloads = store.entries[i].stats.download_count;
                store.entries[i].url = Some(request.url.to_string());
                store.entries[i].content = Some(content);
                store.entries[i].etag = copy_text(request.etag);
                store.entries[i].last_modified = copy_text(request.last_modified);
                store.entries[i].content_hash = Some(content_hash);
                store.entries[i].stats.size_bytes = size_bytes;
                store.entries[i].stats.domain_count = request.domain_count;
                store.entries[i].stats.last_download_at = Some(now);
                store.entries[i].stats.download_count = if downloads < i64::MAX {
                    downloads + 1
                } else {
                    downloads
                };
                store.entries[i].updated_at = Some(now);
            },
            None => {
                store.entries.push(
                    CacheEntry {
                        url_hash: request.url_hash.to_string(),
                        url: Some(request.url.to_string()),
                        content: Some(content),
                        etag: copy_text(request.etag),
                        last_modified: copy_text(request.last_modified),
                        content_hash: Some(content_hash),
                        stats: CacheStats {
                            size_bytes,
                            domain_count: request.domain_count,
                            download_count: 1,
                            access_count: 0,
                            last_download_at: Some(now),
                            last_accessed_at: None,
                        },
                        updated_at: Some(now),
                    },
                );
            },
        }
    }

    /// Notes at `now` how many domains the source under `url_hash` gave.
    pub fn update_domain_count(
        &self,
        store: &mut CacheStore,
        url_hash: &str,
        domain_count: i64,
        now: i64,
    )
        ensures
            final(store)@ == match first_entry(old(store)@, url_hash@) {
                Some(i) => old(store)@.update(i, recounted(old(store)@[i], domain_count, now)),
                None => old(store)@,
            },
    {
        match Self::find(&store.entries, url_hash) {
            Some(i) => {
                store.entries[i].stats.domain_count = domain_count;
                store.entries[i].updated_at = Some(now);
                assert(store@ =~= old(store)@.update(
                    i as int,
                    recounted(old(store)@[i as int], domain_count, now),
                ));
            },
            None => {},
        }
    }

    /// Removes the entries that are stale at `now`, and says how many
    /// they were.
    pub fn cleanup_stale(&self, store: &mut CacheStore, days: i64, now: i64) -> (removed: u64)
        ensures
            final(store)@ == fresh_entries(old(store)@, now, days),
            removed == old(store)@.len() - final(store)@.len(),
    {
        let limit = Self::cutoff_at(now, days);
        let mut kept: Vec<CacheEntry> = Vec::new();
        let mut removed: u64 = 0;
        let ghost before = store@;
        proof {
            assert(before.take(before.len() as int) =~= before);
            assert(before.len() == store.entries.len());
            lemma_fresh_entries_len(before, now, days);
        }
        let mut reversed: Vec<CacheEntry> = Vec::new();
        while store.entries.len() > 0
            invariant
                store@ == before.take(store@.len() as int),
                store@.len() <= before.len() <= usize::MAX,
                reversed@.len() == before.len() - store@.len(),
                forall|k: int|
                    0 <= k < reversed@.len() ==> (#[trigger] reversed@[k]) == before[before.len() - 1
                        - k],
            decreases store.entries.len(),
        {
            let ghost at = store@.len() - 1;
            let entry = store.entries.pop().unwrap();
            assert(entry == before[at]);
            reversed.push(entry);
        }
        proof {
            assert(before.take(0) =~= Seq::<CacheEntry>::empty());
        }
        let ghost backwards = reversed@;
        while reversed.len() > 0
            invariant
                backwards.len() == before.len() <= usize::MAX,
                reversed@ == backwards.take(reversed@.len() as int),
                reversed@.len() <= before.len(),
                forall|k: int|
                    0 <= k < backwards.len() ==> (#[trigger] backwards[k]) == before[before.len()
                        - 1 - k],
                limit == cutoff(now, days),
                kept@ == fresh_entries(
                    before.take(before.len() - reversed@.len()),
                    now,
                    days,
                ),
                removed + kept@.len() == before.len() - reversed@.len(),
            decreases reversed.len(),
        {
            let ghost done = before.len() - reversed@.len();
            let ghost at = reversed@.len() - 1;
            let entry = reversed.pop().unwrap();
            proof {
                assert(entry == backwards[at]);
                assert(entry == before[done]);
                let p = before.take(done + 1);
                assert(p.drop_last() =~= before.take(done));
                assert(p.last() == entry);
            }
            let stale = match entry.updated_at {
                Some(t) => (t as i128) < limit,
                None => false,
            };
            if stale {
                assert(removed < before.len() <= usize::MAX);
                removed += 1;
            } else {
                kept.push(entry);
            }
        }
        proof {
            assert(before.take(before.len() as int) =~= before);
        }
        store.entries = kept;
        removed
    }

    /// Whether the cache has a valid entry for `url_hash` at `now`: one
    /// with content that was updated within the last seven days.
    pub fn has_valid_cache(&self, store: &CacheStore, url_hash: &str, now: i64) -> (valid: bool)
        ensures
            valid == has_valid_entry(store@, url_hash@, now),
    {
        let limit = Self::cutoff_at(now, VALID_DAYS);
        let mut i: usize = 0;
        while i < store.entries.len()
            invariant
                i <= store.entries.len(),
                limit == cutoff(now, VALID_DAYS),
                forall|j: int|
                    0 <= j < i ==> !((#[trigger] store@[j]).url_hash@ == url_hash@
                        && store@[j].is_valid_at(now)),
            decreases store.entries.len() - i,
        {
            let entry = &store.entries[i];
            if str_eq(entry.url_hash.as_str(), url_hash) && entry.content.is_some() {
                match entry.updated_at {
                    Some(t) => {
                        if (t as i128) >= limit {
                            return true;
                        }
                    },
                    None => {},
                }
            }
            i += 1;
        }
        false
    }
}

} // verus!
