//! The pipeline of a job: the domains of a build by category, and the two
//! hashes of a configuration.

use crate::domains::DomainSet;
use crate::downloader::{parsed_config, source_views, Downloader, Source, SourceView};
use crate::hashing::{sha256_hex, sha256_hex_of};
use crate::text::{lex_lt, str_eq, str_lt, strings, to_lowercase, unicode_lowercase, to_chars, string_of};
use crate::whitelist::{parse_whitelist, PatternView, WhitelistManager};
use vstd::prelude::*;
use vstd::string::StringExecFns;
use vstd::utf8::encode_utf8;

verus! {

/// The domains of one category. Sources without a category share the
/// bucket that has none.
pub struct CategoryBucket {
    pub category: Option<String>,
    pub domains: DomainSet,
}

/// The mathematical value of a `CategoryBucket`.
pub struct BucketView {
    pub category: Option<Seq<char>>,
    pub domains: Set<Seq<char>>,
}

impl View for CategoryBucket {
    type V = BucketView;

    open spec fn view(&self) -> BucketView {
        BucketView {
            category: match self.category {
                Some(c) => Some(c@),
                None => None,
            },
            domains: self.domains@,
        }
    }
}

/// The domains of a build, by category. No category has two buckets.
pub struct CategoryDomains {
    buckets: Vec<CategoryBucket>,
}

/// The value of a category.
pub open spec fn category_view(category: Option<String>) -> Option<Seq<char>> {
    match category {
        Some(c) => Some(c@),
        None => None,
    }
}

/// The values of a list of buckets.
pub open spec fn bucket_views(buckets: Seq<CategoryBucket>) -> Seq<BucketView> {
    buckets.map_values(|b: CategoryBucket| b@)
}

/// The domains of all of `buckets` together.
pub open spec fn union_of(buckets: Seq<BucketView>) -> Set<Seq<char>>
    decreases buckets.len(),
{
    if buckets.len() == 0 {
        Set::empty()
    } else {
        union_of(buckets.drop_last()).union(buckets.last().domains)
    }
}

/// Whether no two of `buckets` are for the same category.
pub open spec fn distinct_categories(buckets: Seq<BucketView>) -> bool {
    forall|i: int, j: int|
        0 <= i < j < buckets.len() ==> (#[trigger] buckets[i]).category != (
        #[trigger] buckets[j]).category
}

/// The index of the bucket of `category`.
pub open spec fn bucket_index(buckets: Seq<BucketView>, category: Option<Seq<char>>) -> Option<int>
    decreases buckets.len(),
{
    if buckets.len() == 0 {
        None
    } else {
        match bucket_index(buckets.drop_last(), category) {
            Some(i) => Some(i),
            None => if buckets.last().category == category {
                Some(buckets.len() - 1)
            } else {
                None
            },
        }
    }
}

/// `buckets` with `domains` added to the bucket of `category`, which is
/// made at the end where it is not there yet.
pub open spec fn with_added(
    buckets: Seq<BucketView>,
    category: Option<Seq<char>>,
    domains: Set<Seq<char>>,
) -> Seq<BucketView> {
    match bucket_index(buckets, category) {
        Some(i) => buckets.update(
            i,
            BucketView { category, domains: buckets[i].domains.union(domains) },
        ),
        None => buckets.push(BucketView { category, domains }),
    }
}

/// What separates the two texts of a configuration where it is hashed.
pub open spec fn hash_separator() -> Seq<char> {
    "\n---SEPARATOR---\n"@
}

/// The hash of a configuration as it was written: the SHA-256 of the
/// blocklist text, the separator and the whitelist text.
pub open spec fn config_hash_of(blocklists: Seq<char>, whitelist: Seq<char>) -> Seq<char> {
    sha256_hex_of(encode_utf8(blocklists + hash_separator() + whitelist))
}

/// `s` without the slashes that it ends with.
pub open spec fn without_trailing_slashes(s: Seq<char>) -> Seq<char>
    decreases s.len(),
{
    if s.len() > 0 && s.last() == '/' {
        without_trailing_slashes(s.drop_last())
    } else {
        s
    }
}

/// The canonical line of a source: its URL in lower case without trailing
/// slashes, its name in lower case and its category in lower case (empty
/// where it has none), parted by `|`.
pub open spec fn canonical_source(s: SourceView) -> Seq<char> {
    without_trailing_slashes(unicode_lowercase(s.url)) + seq!['|'] + unicode_lowercase(s.name)
        + seq!['|'] + unicode_lowercase(
        match s.category {
            Some(c) => c,
            None => Seq::empty(),
        },
    )
}

/// The place of a source with the URL `url` in `sorted`: behind every
/// source whose URL does not come after it.
pub open spec fn url_position(sorted: Seq<SourceView>, url: Seq<char>) -> int
    decreases sorted.len(),
{
    if sorted.len() > 0 && !lex_lt(url, sorted[0].url) {
        1 + url_position(sorted.drop_first(), url)
    } else {
        0
    }
}

/// `sources` in ascending order of their URLs; sources with the same URL
/// keep their order.
pub open spec fn sorted_by_url(sources: Seq<SourceView>) -> Seq<SourceView>
    decreases sources.len(),
{
    if sources.len() == 0 {
        Seq::empty()
    } else {
        let rest = sorted_by_url(sources.drop_last());
        rest.insert(url_position(rest, sources.last().url), sources.last())
    }
}

/// `items` one per line: joined by line feeds, with none at the end.
pub open spec fn joined(items: Seq<Seq<char>>) -> Seq<char>
    decreases items.len(),
{
    if items.len() == 0 {
        Seq::empty()
    } else if items.len() == 1 {
        items[0]
    } else {
        joined(items.drop_last()) + seq!['\n'] + items.last()
    }
}

/// The canonical lines of `sources`, in their order.
pub open spec fn canonical_sources(sources: Seq<SourceView>) -> Seq<Seq<char>> {
    sources.map_values(|s: SourceView| canonical_source(s))
}

/// The patterns of `ps` as they were written, in their order.
pub open spec fn pattern_texts(ps: Seq<PatternView>) -> Seq<Seq<char>> {
    ps.map_values(|p: PatternView| p.original)
}

/// The canonical form of a configuration: the canonical lines of its
/// sources in ascending order of their URLs, a separator, and the patterns
/// of its whitelist in the order in which they are written.
pub open spec fn canonical_config(sources: Seq<SourceView>, patterns: Seq<PatternView>) -> Seq<
    char,
> {
    joined(canonical_sources(sorted_by_url(sources))) + "\n---\n"@ + joined(pattern_texts(patterns))
}

/// The fingerprint of a configuration: the SHA-256 of its canonical form.
pub open spec fn config_fingerprint_of(blocklists: Seq<char>, whitelist: Seq<char>) -> Seq<char> {
    sha256_hex_of(
        encode_utf8(canonical_config(parsed_config(blocklists), parse_whitelist(whitelist))),
    )
}

pub proof fn lemma_url_position_bounds(sorted: Seq<SourceView>, url: Seq<char>)
    ensures
        0 <= url_position(sorted, url) <= sorted.len(),
    decreases sorted.len(),
{
    if sorted.len() > 0 && !lex_lt(url, sorted[0].url) {
        lemma_url_position_bounds(sorted.drop_first(), url);
    }
}

pub proof fn lemma_bucket_index(buckets: Seq<BucketView>, category: Option<Seq<char>>)
    ensures
        match bucket_index(buckets, category) {
            Some(i) => {
                &&& 0 <= i < buckets.len()
                &&& buckets[i].category == category
                &&& forall|j: int| 0 <= j < i ==> (#[trigger] buckets[j]).category != category
            },
            None => forall|j: int|
                0 <= j < buckets.len() ==> (#[trigger] buckets[j]).category != category,
        },
    decreases buckets.len(),
{
    if buckets.len() > 0 {
        let front = buckets.drop_last();
        lemma_bucket_index(front, category);
        assert forall|j: int| 0 <= j < front.len() implies buckets[j] == front[j] by {}
    }
}

/// A domain is in the union of the buckets exactly where it is in one of them.
pub proof fn lemma_union_of(buckets: Seq<BucketView>, d: Seq<char>)
    ensures
        union_of(buckets).contains(d) <==> exists|i: int|
            0 <= i < buckets.len() && (#[trigger] buckets[i]).domains.contains(d),
    decreases buckets.len(),
{
    if buckets.len() > 0 {
        let front = buckets.drop_last();
        lemma_union_of(front, d);
        if union_of(buckets).contains(d) {
            if buckets.last().domains.contains(d) {
                assert(buckets[buckets.len() - 1].domains.contains(d));
            } else {
                let i = choose|i: int| 0 <= i < front.len() && (#[trigger] front[i]).domains.contains(d);
                assert(buckets[i].domains.contains(d));
            }
        }
        if exists|i: int| 0 <= i < buckets.len() && (#[trigger] buckets[i]).domains.contains(d) {
            let i = choose|i: int| 0 <= i < buckets.len() && (#[trigger] buckets[i]).domains.contains(d);
            if i < front.len() {
                assert(front[i].domains.contains(d));
            }
        }
    }
}

/// Whether two categories are the same.
pub fn same_category(a: &Option<String>, b: &Option<String>) -> (r: bool)
    ensures
        r == (match (*a, *b) {
            (Some(x), Some(y)) => x@ == y@,
            (None, None) => true,
            _ => false,
        }),
{
    match a {
        Some(x) => match b {
            Some(y) => str_eq(x.as_str(), y.as_str()),
            None => false,
        },
        None => b.is_none(),
    }
}

impl View for CategoryDomains {
    type V = Seq<BucketView>;

    closed spec fn view(&self) -> Seq<BucketView> {
        bucket_views(self.buckets@)
    }
}

impl CategoryDomains {
    #[verifier::type_invariant]
    spec fn one_bucket_per_category(self) -> bool {
        distinct_categories(bucket_views(self.buckets@))
    }

    /// No domains in no category.
    pub fn new() -> (r: CategoryDomains)
        ensures
            r@ == Seq::<BucketView>::empty(),
    {
        let buckets: Vec<CategoryBucket> = Vec::new();
        assert(bucket_views(buckets@) =~= Seq::<BucketView>::empty());
        CategoryDomains { buckets }
    }

    /// The buckets, in the order in which their categories came.
    pub fn buckets(&self) -> (r: &Vec<CategoryBucket>)
        ensures
            bucket_views(r@) == self@,
            distinct_categories(self@),
    {
        proof {
            use_type_invariant(self);
        }
        &self.buckets
    }

    /// The buckets, in the order in which their categories came.
    pub fn into_buckets(self) -> (r: Vec<CategoryBucket>)
        ensures
            bucket_views(r@) == self@,
            distinct_categories(self@),
    {
        proof {
            use_type_invariant(&self);
        }
        self.buckets
    }

    /// The index of the bucket of `category`.
    pub fn find(&self, category: &Option<String>) -> (r: Option<usize>)
        ensures
            match r {
                Some(i) => bucket_index(
                    self@,
                    match *category {
                        Some(c) => Some(c@),
                        None => None,
                    },
                ) == Some(i as int) && i < self@.len(),
                None => bucket_index(
                    self@,
                    match *category {
                        Some(c) => Some(c@),
                        None => None,
                    },
                ) is None,
            },
    {
        let ghost key: Option<Seq<char>> = category_view(*category);
        let mut i: usize = 0;
        while i < self.buckets.len()
            invariant
                i <= self.buckets.len(),
                key == category_view(*category),
                forall|j: int| 0 <= j < i ==> (#[trigger] self@[j]).category != key,
            decreases self.buckets.len() - i,
        {
            assert(self@[i as int] == self.buckets@[i as int]@);
            if same_category(&self.buckets[i].category, category) {
                proof {
                    lemma_bucket_index(self@, key);
                }
                return Some(i);
            }
            i += 1;
        }
        proof {
            lemma_bucket_index(self@, key);
        }
        None
    }

    /// Adds `domains` to the bucket of `category`, which is made at the end
    /// where it is not there yet.
    pub fn add(&mut self, category: Option<String>, domains: Vec<String>)
        ensures
            final(self)@ == with_added(
                old(self)@,
                category_view(category),
                strings(domains@).to_set(),
            ),
    {
        let ghost key: Option<Seq<char>> = category_view(category);
        let ghost all = strings(domains@);
        let found = self.find(&category);
        let mut taken = CategoryDomains::new();
        std::mem::swap(self, &mut taken);
        let mut buckets = taken.into_buckets();
        let ghost before = bucket_views(buckets@);
        proof {
            lemma_bucket_index(before, key);
        }
        let mut bucket = match found {
            Some(i) => {
                assert(before[i as int] == buckets@[i as int]@);
                buckets.remove(i)
            },
            None => CategoryBucket { category, domains: DomainSet::new() },
        };
        let ghost start = bucket.domains@;
        let mut rest = domains;
        proof {
            assert(all.skip(all.len() as int) =~= Seq::<Seq<char>>::empty());
            assert(start.union(Seq::<Seq<char>>::empty().to_set()) =~= start);
        }
        while rest.len() > 0
            invariant
                rest@.len() <= all.len(),
                all == strings(domains@),
                strings(rest@) == all.take(rest@.len() as int),
                category_view(bucket.category) == key,
                bucket.domains@ == start.union(all.skip(rest@.len() as int).to_set()),
            decreases rest.len(),
        {
            let ghost n = rest@.len() as int;
            let ghost whole = rest@;
            let domain = rest.pop().unwrap();
            proof {
                assert(domain == whole[n - 1]);
                assert(strings(whole)[n - 1] == domain@);
                assert(domain@ == all[n - 1]);
                assert(strings(rest@) =~= all.take(n - 1));
                let done = all.skip(n);
                let next = all.skip(n - 1);
                assert(next =~= seq![all[n - 1]] + done);
                assert(next.to_set() =~= done.to_set().insert(all[n - 1])) by {
                    assert forall|d: Seq<char>| next.to_set().contains(d) <==> done.to_set().insert(
                        all[n - 1],
                    ).contains(d) by {
                        if next.contains(d) {
                            let k = choose|k: int| 0 <= k < next.len() && next[k] == d;
                            if k > 0 {
                                assert(done[k - 1] == d);
                            }
                        }
                        if done.contains(d) {
                            let k = choose|k: int| 0 <= k < done.len() && done[k] == d;
                            assert(next[k + 1] == d);
                        }
                        if d == all[n - 1] {
                            assert(next[0] == d);
                        }
                    }
                }
                assert(start.union(done.to_set()).insert(all[n - 1]) =~= start.union(
                    done.to_set().insert(all[n - 1]),
                ));
            }
            bucket.domains.insert(domain);
        }
        proof {
            assert(all.skip(0) =~= all);
        }
        match found {
            Some(i) => {
                buckets.insert(i, bucket);
                assert(bucket_views(buckets@) =~= before.update(i as int, bucket@));
                assert(start =~= before[i as int].domains);
            },
            None => {
                buckets.push(bucket);
                assert(bucket_views(buckets@) =~= before.push(bucket@));
                assert(start.union(all.to_set()) =~= all.to_set());
            },
        }
        *self = CategoryDomains { buckets };
    }

    /// All domains of all categories.
    pub fn all_unique(&self) -> (all: DomainSet)
        ensures
            all@ == union_of(self@),
    {
        let mut all = DomainSet::new();
        let mut i: usize = 0;
        proof {
            assert(self@.take(0) =~= Seq::<BucketView>::empty());
        }
        while i < self.buckets.len()
            invariant
                i <= self.buckets.len(),
                all@ == union_of(self@.take(i as int)),
            decreases self.buckets.len() - i,
        {
            proof {
                let p = self@.take(i + 1);
                assert(p.drop_last() =~= self@.take(i as int));
                assert(p.last() == self.buckets@[i as int]@);
            }
            all.extend_from(&self.buckets[i].domains);
            i += 1;
        }
        assert(self@.take(self.buckets.len() as int) =~= self@);
        all
    }

    /// The number of domains, each counted once.
    pub fn total_count(&self) -> (n: usize)
        ensures
            n == union_of(self@).len(),
    {
        self.all_unique().len()
    }

    /// Whether no category has a domain.
    pub fn is_empty(&self) -> (r: bool)
        ensures
            r == (forall|i: int| 0 <= i < self@.len() ==> (#[trigger] self@[i]).domains.len() == 0),
            r == (union_of(self@) == Set::<Seq<char>>::empty()),
    {
        let mut i: usize = 0;
        while i < self.buckets.len()
            invariant
                i <= self.buckets.len(),
                forall|j: int| 0 <= j < i ==> (#[trigger] self@[j]).domains.len() == 0 && self@[j].domains == Set::<Seq<char>>::empty(),
            decreases self.buckets.len() - i,
        {
            assert(self@[i as int] == self.buckets@[i as int]@);
            if !self.buckets[i].domains.is_empty() {
                proof {
                    let d = choose|d: Seq<char>| self@[i as int].domains.contains(d);
                    assert(self@[i as int].domains.contains(d)) by {
                        if !exists|d: Seq<char>| self@[i as int].domains.contains(d) {
                            assert(self@[i as int].domains =~= Set::<Seq<char>>::empty());
                        }
                    }
                    lemma_union_of(self@, d);
                }
                return false;
            }
            i += 1;
        }
        proof {
            assert forall|d: Seq<char>| !union_of(self@).contains(d) by {
                lemma_union_of(self@, d);
            }
            assert(union_of(self@) =~= Set::<Seq<char>>::empty());
        }
        true
    }

    /// The number of categories.
    pub fn category_count(&self) -> (n: usize)
        ensures
            n == self@.len(),
    {
        self.buckets.len()
    }
}

impl Source {
    /// A copy of the source.
    pub fn duplicate(&self) -> (r: Source)
        ensures
            r@ == self@,
    {
        Source {
            name: self.name.clone(),
            url: self.url.clone(),
            category: match &self.category {
                Some(c) => Some(c.clone()),
                None => None,
            },
        }
    }
}

/// The sources in ascending order of their URLs: see `sorted_by_url`.
pub fn sort_by_url(sources: &Vec<Source>) -> (sorted: Vec<Source>)
    ensures
        source_views(sorted@) == sorted_by_url(source_views(sources@)),
{
    let ghost all = source_views(sources@);
    let mut sorted: Vec<Source> = Vec::new();
    let mut i: usize = 0;
    proof {
        assert(all.take(0) =~= Seq::<SourceView>::empty());
        assert(source_views(sorted@) =~= Seq::<SourceView>::empty());
    }
    while i < sources.len()
        invariant
            i <= sources.len(),
            all == source_views(sources@),
            source_views(sorted@) == sorted_by_url(all.take(i as int)),
        decreases sources.len() - i,
    {
        proof {
            let p = all.take(i + 1);
            assert(p.drop_last() =~= all.take(i as int));
            assert(p.last() == sources@[i as int]@);
        }
        let item = sources[i].duplicate();
        let ghost views = source_views(sorted@);
        let mut k: usize = 0;
        assert(views.skip(0) =~= views);
        while k < sorted.len() && !str_lt(item.url.as_str(), sorted[k].url.as_str())
            invariant
                k <= sorted.len(),
                views == source_views(sorted@),
                url_position(views, item.url@) == k + url_position(views.skip(k as int), item.url@),
            decreases sorted.len() - k,
        {
            assert(views.skip(k as int).drop_first() =~= views.skip(k + 1));
            k += 1;
        }
        sorted.insert(k, item);
        assert(source_views(sorted@) =~= views.insert(k as int, item@));
        i += 1;
    }
    assert(all.take(sources.len() as int) =~= all);
    sorted
}

/// The text without the slashes that it ends with.
fn strip_trailing_slashes(text: &str) -> (r: String)
    ensures
        r@ == without_trailing_slashes(text@),
{
    let v = to_chars(text);
    let mut end: usize = v.len();
    assert(v@.take(v.len() as int) =~= v@);
    while end > 0 && v[end - 1] == '/'
        invariant
            end <= v.len(),
            without_trailing_slashes(v@.take(end as int)) == without_trailing_slashes(v@),
        decreases end,
    {
        assert(v@.take(end as int).drop_last() =~= v@.take(end - 1));
        end -= 1;
    }
    assert(v@.subrange(0, end as int) =~= v@.take(end as int));
    string_of(&v, 0, end)
}

/// Appends `items`, one per line, to `out`.
fn append_joined(out: &mut String, items: &Vec<String>)
    ensures
        final(out)@ == old(out)@ + joined(strings(items@)),
{
    let mut i: usize = 0;
    proof {
        assert(strings(items@).take(0) =~= Seq::<Seq<char>>::empty());
        assert(out@ + Seq::<char>::empty() =~= out@);
    }
    while i < items.len()
        invariant
            i <= items.len(),
            out@ == old(out)@ + joined(strings(items@).take(i as int)),
        decreases items.len() - i,
    {
        proof {
            let p = strings(items@).take(i + 1);
            assert(p.drop_last() =~= strings(items@).take(i as int));
            assert(p.last() == items@[i as int]@);
            reveal_strlit("\n");
            assert("\n"@ =~= seq!['\n']);
        }
        let ghost before = out@;
        if i > 0 {
            out.append("\n");
        }
        out.append(items[i].as_str());
        proof {
            let p = strings(items@).take(i + 1);
            if i == 0 {
                assert(p.len() == 1);
                assert(out@ =~= old(out)@ + joined(p));
            } else {
                assert(out@ =~= old(out)@ + joined(p));
            }
        }
        i += 1;
    }
    assert(strings(items@).take(items.len() as int) =~= strings(items@));
}

/// The processor of jobs.
pub struct JobProcessor {}

impl JobProcessor {
    /// The hash of a configuration as it was written: see `config_hash_of`.
    pub fn compute_config_hash(blocklists: &str, whitelist: &str) -> (hash: String)
        ensures
            hash@ == config_hash_of(blocklists@, whitelist@),
    {
        let mut combined = blocklists.to_string();
        combined.append("\n---SEPARATOR---\n");
        combined.append(whitelist);
        sha256_hex(combined.as_str().as_bytes())
    }

    /// The canonical line of a source: see `canonical_source`.
    fn canonical_line(source: &Source) -> (line: String)
        ensures
            line@ == canonical_source(source@),
    {
        let lowered = to_lowercase(source.url.as_str());
        let mut line = strip_trailing_slashes(lowered.as_str());
        proof {
            reveal_strlit("|");
            assert("|"@ =~= seq!['|']);
            reveal_strlit("");
            assert(""@ =~= Seq::<char>::empty());
        }
        line.append("|");
        line.append(to_lowercase(source.name.as_str()).as_str());
        line.append("|");
        let category = match &source.category {
            Some(c) => to_lowercase(c.as_str()),
            None => to_lowercase(""),
        };
        line.append(category.as_str());
        line
    }

    /// The fingerprint of a configuration: see `config_fingerprint_of`. Two
    /// configurations with the same canonical form have the same fingerprint.
    pub fn compute_config_fingerprint(blocklists: &str, whitelist: &str) -> (fingerprint: String)
        ensures
            fingerprint@ == config_fingerprint_of(blocklists@, whitelist@),
    {
        let sources = Downloader::parse_config(blocklists);
        let sorted = sort_by_url(&sources);
        let mut lines: Vec<String> = Vec::new();
        let mut i: usize = 0;
        let ghost views = source_views(sorted@);
        proof {
            assert(strings(lines@) =~= canonical_sources(views).take(0));
        }
        while i < sorted.len()
            invariant
                i <= sorted.len(),
                views == source_views(sorted@),
                strings(lines@) == canonical_sources(views).take(i as int),
            decreases sorted.len() - i,
        {
            let ghost before = strings(lines@);
            let line = Self::canonical_line(&sorted[i]);
            lines.push(line);
            proof {
                assert(strings(lines@) =~= before.push(line@));
                assert(canonical_sources(views).take(i + 1) =~= canonical_sources(views).take(
                    i as int,
                ).push(canonical_source(views[i as int])));
            }
            i += 1;
        }
        assert(canonical_sources(views).take(sorted.len() as int) =~= canonical_sources(views));
        let manager = WhitelistManager::from_content(whitelist);
        let patterns = manager.patterns_as_strings();
        assert(strings(patterns@) =~= pattern_texts(manager@));
        let mut canonical = String::new();
        append_joined(&mut canonical, &lines);
        canonical.append("\n---\n");
        append_joined(&mut canonical, &patterns);
        proof {
            assert(canonical@ =~= canonical_config(
                parsed_config(blocklists@),
                parse_whitelist(whitelist@),
            ));
        }
        sha256_hex(canonical.as_str().as_bytes())
    }
}

} // verus!
