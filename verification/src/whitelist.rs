//! The whitelist language. A whitelist is a list of patterns, one per line:
//! an exact domain, `@@domain` for a domain and its subdomains, a pattern
//! with `*` wildcards, or `/regex/`. A `#` starts a comment.

use crate::db::progress::{PatternMatchView, WhitelistPatternMatch, WhitelistProgress};
use crate::domains::DomainSet;
use crate::regexes::{
    compile, compile_set, escape, escaped, is_match, regex_compiles, regex_matches,
    regex_set_compiles, regex_set_matches, regex_set_sources, regex_source, set_is_match,
};
use crate::text::{
    find_char, has_suffix, index_of, lines, slice_of, split_lines, str_ends_with, str_eq,
    string_of, strings, texts, to_chars, to_lowercase, trim, trim_chars, unicode_lowercase,
};
use vstd::hash_set::StringHashSet;
use vstd::prelude::*;
use vstd::string::StringExecFns;

verus! {

/// The kind of a whitelist pattern.
#[derive(Debug, Clone, Copy, PartialEq, Eq, Structural)]
pub enum PatternType {
    Exact,
    Wildcard,
    Regex,
    Subdomain,
}

/// A pattern as it was written, with its kind.
#[derive(Debug, Clone)]
pub struct PatternInfo {
    pub original: String,
    pub pattern_type: PatternType,
}

/// The mathematical value of a `PatternInfo`.
pub struct PatternView {
    pub original: Seq<char>,
    pub pattern_type: PatternType,
}

impl View for PatternInfo {
    type V = PatternView;

    open spec fn view(&self) -> PatternView {
        PatternView { original: self.original@, pattern_type: self.pattern_type }
    }
}

/// A subdomain pattern made ready for matching.
pub struct SubdomainPattern {
    /// The domain itself, in lower case.
    pub exact: String,
    /// The domain with a dot before it.
    pub dotted: String,
}

/// A compiled whitelist. Its value is the list of its patterns: what it
/// matches follows from them alone.
pub struct WhitelistManager {
    exact_patterns: StringHashSet,
    subdomain_patterns: Vec<SubdomainPattern>,
    regex_set: Option<regex::RegexSet>,
    all_patterns: Vec<PatternInfo>,
    regex_pattern_strings: Vec<String>,
}

/// The values of a list of patterns.
pub open spec fn pattern_views(ps: Seq<PatternInfo>) -> Seq<PatternView> {
    ps.map_values(|p: PatternInfo| p@)
}

/// The kind of the pattern `p`: a regex where it is longer than two
/// characters and stands between slashes; else a subdomain pattern where it
/// begins with `@@`; else a wildcard where it holds a `*`; else exact.
pub open spec fn classify(p: Seq<char>) -> PatternType {
    if p.len() > 2 && p[0] == '/' && p.last() == '/' {
        PatternType::Regex
    } else if p.len() >= 2 && p[0] == '@' && p[1] == '@' {
        PatternType::Subdomain
    } else if p.contains('*') {
        PatternType::Wildcard
    } else {
        PatternType::Exact
    }
}

/// The pattern of a line: the line is trimmed, cut before its first `#`, and
/// trimmed again.
pub open spec fn pattern_text(line: Seq<char>) -> Seq<char> {
    let l = trim(line);
    trim(l.take(index_of(l, '#')))
}

/// What a line of a whitelist yields: its pattern with its kind, unless the
/// pattern is empty.
pub open spec fn parse_pattern(line: Seq<char>) -> Option<PatternView> {
    let p = pattern_text(line);
    if p.len() == 0 {
        None
    } else {
        Some(PatternView { original: p, pattern_type: classify(p) })
    }
}

/// The patterns of a list of lines, in the order of the lines.
pub open spec fn parse_patterns(ls: Seq<Seq<char>>) -> Seq<PatternView>
    decreases ls.len(),
{
    if ls.len() == 0 {
        Seq::empty()
    } else {
        match parse_pattern(ls.last()) {
            Some(p) => parse_patterns(ls.drop_last()).push(p),
            None => parse_patterns(ls.drop_last()),
        }
    }
}

/// The patterns of a whitelist text.
pub open spec fn parse_whitelist(content: Seq<char>) -> Seq<PatternView> {
    parse_patterns(lines(content))
}

/// `s` without the `@@` marks that it begins with.
pub open spec fn without_marks(s: Seq<char>) -> Seq<char>
    decreases s.len(),
{
    if s.len() >= 2 && s[0] == '@' && s[1] == '@' {
        without_marks(s.skip(2))
    } else {
        s
    }
}

/// The domain that a subdomain pattern names, in lower case.
pub open spec fn subdomain_of(original: Seq<char>) -> Seq<char> {
    unicode_lowercase(without_marks(original))
}

/// Whether `domain` is `suffix` or ends with a dot and `suffix`.
pub open spec fn is_within(suffix: Seq<char>, domain: Seq<char>) -> bool {
    domain == suffix || has_suffix(domain, seq!['.'] + suffix)
}

/// `s` with each `\*` replaced by `.*`, from left to right.
pub open spec fn stars_to_any(s: Seq<char>) -> Seq<char>
    decreases s.len(),
{
    if s.len() >= 2 && s[0] == '\\' && s[1] == '*' {
        seq!['.', '*'] + stars_to_any(s.skip(2))
    } else if s.len() > 0 {
        seq![s[0]] + stars_to_any(s.skip(1))
    } else {
        Seq::empty()
    }
}

/// The regex of a wildcard pattern: the pattern escaped, each `*` standing
/// for any text, and the whole anchored at both ends.
pub open spec fn wildcard_source(original: Seq<char>) -> Seq<char> {
    seq!['^'] + stars_to_any(escaped(original)) + seq!['$']
}

/// The regex of a regex pattern: what stands between its slashes.
pub open spec fn regex_body(original: Seq<char>) -> Seq<char> {
    if original.len() >= 2 {
        original.subrange(1, original.len() - 1)
    } else {
        Seq::empty()
    }
}

/// Whether each pattern of `ps` is a pattern text with the kind that its
/// text gives it: it is not empty, is its own trim, holds neither `#` nor a
/// line feed, and is classified as `classify` says.
pub open spec fn well_classified(ps: Seq<PatternView>) -> bool {
    forall|i: int|
        0 <= i < ps.len() ==> {
            let p = (#[trigger] ps[i]).original;
            &&& p.len() > 0
            &&& trim(p) == p
            &&& !p.contains('#')
            &&& !p.contains('\n')
            &&& ps[i].pattern_type == classify(p)
        }
}

/// The domains that the exact patterns of `ps` name, in lower case.
pub open spec fn exact_set(ps: Seq<PatternView>) -> Set<Seq<char>>
    decreases ps.len(),
{
    if ps.len() == 0 {
        Set::empty()
    } else if ps.last().pattern_type == PatternType::Exact {
        exact_set(ps.drop_last()).insert(unicode_lowercase(ps.last().original))
    } else {
        exact_set(ps.drop_last())
    }
}

/// The domains that the subdomain patterns of `ps` name, in their order.
pub open spec fn subdomain_list(ps: Seq<PatternView>) -> Seq<Seq<char>>
    decreases ps.len(),
{
    if ps.len() == 0 {
        Seq::empty()
    } else if ps.last().pattern_type == PatternType::Subdomain {
        subdomain_list(ps.drop_last()).push(subdomain_of(ps.last().original))
    } else {
        subdomain_list(ps.drop_last())
    }
}

/// The regexes of the wildcard and regex patterns of `ps`, in their order.
pub open spec fn regex_sources(ps: Seq<PatternView>) -> Seq<Seq<char>>
    decreases ps.len(),
{
    if ps.len() == 0 {
        Seq::empty()
    } else if ps.last().pattern_type == PatternType::Regex {
        regex_sources(ps.drop_last()).push(regex_body(ps.last().original))
    } else if ps.last().pattern_type == PatternType::Wildcard {
        regex_sources(ps.drop_last()).push(wildcard_source(ps.last().original))
    } else {
        regex_sources(ps.drop_last())
    }
}

/// The wildcard and regex patterns of `ps` as they were written, in their order.
pub open spec fn regex_originals(ps: Seq<PatternView>) -> Seq<Seq<char>>
    decreases ps.len(),
{
    if ps.len() == 0 {
        Seq::empty()
    } else if ps.last().pattern_type == PatternType::Regex || ps.last().pattern_type
        == PatternType::Wildcard {
        regex_originals(ps.drop_last()).push(ps.last().original)
    } else {
        regex_originals(ps.drop_last())
    }
}

/// Whether one of the subdomain patterns of `ps` covers `domain`.
pub open spec fn within_some(suffixes: Seq<Seq<char>>, domain: Seq<char>) -> bool {
    exists|k: int| 0 <= k < suffixes.len() && is_within(#[trigger] suffixes[k], domain)
}

/// Whether the wildcard and regex patterns of `ps`, compiled as one set,
/// match `domain`. A set that does not compile matches nothing.
pub open spec fn set_matches(ps: Seq<PatternView>, domain: Seq<char>) -> bool {
    &&& regex_sources(ps).len() > 0
    &&& regex_set_compiles(regex_sources(ps))
    &&& regex_set_matches(regex_sources(ps), domain)
}

/// Whether the whitelist made of `ps` covers `domain`: an exact pattern
/// names it, or a subdomain pattern covers it, or the set of the other
/// patterns matches it.
pub open spec fn whitelisted(ps: Seq<PatternView>, domain: Seq<char>) -> bool {
    exact_set(ps).contains(domain) || within_some(subdomain_list(ps), domain) || set_matches(
        ps,
        domain,
    )
}

/// Whether the single pattern `p` matches `domain`. A wildcard or regex that
/// does not compile matches nothing.
pub open spec fn pattern_matches(p: PatternView, domain: Seq<char>) -> bool {
    match p.pattern_type {
        PatternType::Exact => unicode_lowercase(p.original) == domain,
        PatternType::Subdomain => is_within(subdomain_of(p.original), domain),
        PatternType::Wildcard => regex_compiles(wildcard_source(p.original)) && regex_matches(
            wildcard_source(p.original),
            domain,
        ),
        PatternType::Regex => regex_compiles(regex_body(p.original)) && regex_matches(
            regex_body(p.original),
            domain,
        ),
    }
}

/// The values of a list of subdomain patterns.
pub open spec fn subdomain_views(subs: Seq<SubdomainPattern>) -> Seq<Seq<char>> {
    subs.map_values(|s: SubdomainPattern| s.exact@)
}

impl PatternType {
    /// The name of the kind.
    pub open spec fn name(self) -> Seq<char> {
        match self {
            PatternType::Exact => "exact"@,
            PatternType::Wildcard => "wildcard"@,
            PatternType::Regex => "regex"@,
            PatternType::Subdomain => "subdomain"@,
        }
    }

    /// The name of the kind.
    pub fn to_string(&self) -> (s: String)
        ensures
            s@ == self.name(),
    {
        match self {
            PatternType::Exact => "exact".to_string(),
            PatternType::Wildcard => "wildcard".to_string(),
            PatternType::Regex => "regex".to_string(),
            PatternType::Subdomain => "subdomain".to_string(),
        }
    }
}

/// The kind of the pattern `p`.
fn classify_chars(p: &Vec<char>) -> (k: PatternType)
    ensures
        k == classify(p@),
{
    let n = p.len();
    if n > 2 && p[0] == '/' && p[n - 1] == '/' {
        PatternType::Regex
    } else if n >= 2 && p[0] == '@' && p[1] == '@' {
        PatternType::Subdomain
    } else if find_char(p, '*') < n {
        PatternType::Wildcard
    } else {
        assert(!p@.contains('*'));
        PatternType::Exact
    }
}

/// The index at which `p` has no more `@@` marks before it.
fn marks_end(p: &Vec<char>) -> (i: usize)
    ensures
        i <= p.len(),
        p@.skip(i as int) == without_marks(p@),
{
    let mut i: usize = 0;
    assert(p@.skip(0) =~= p@);
    while p.len() - i >= 2 && p[i] == '@' && p[i + 1] == '@'
        invariant
            i <= p.len(),
            without_marks(p@.skip(i as int)) == without_marks(p@),
        decreases p.len() - i,
    {
        assert(p@.skip(i as int).skip(2) =~= p@.skip(i + 2));
        i += 2;
    }
    i
}

/// `s` with each `\*` replaced by `.*`, between `^` and `$`.
fn anchored_any(s: &Vec<char>) -> (r: Vec<char>)
    ensures
        r@ == seq!['^'] + stars_to_any(s@) + seq!['$'],
{
    let mut r: Vec<char> = Vec::new();
    r.push('^');
    let mut i: usize = 0;
    assert(s@.skip(0) =~= s@);
    while i < s.len()
        invariant
            i <= s.len(),
            r@ + stars_to_any(s@.skip(i as int)) == seq!['^'] + stars_to_any(s@),
        decreases s.len() - i,
    {
        let ghost tail = s@.skip(i as int);
        let ghost before = r@;
        if s[i] == '\\' && i + 1 < s.len() && s[i + 1] == '*' {
            r.push('.');
            r.push('*');
            proof {
                assert(tail.skip(2) =~= s@.skip(i + 2));
                assert(r@ + stars_to_any(s@.skip(i + 2)) =~= before + stars_to_any(tail));
            }
            i += 2;
        } else {
            r.push(s[i]);
            proof {
                assert(tail.skip(1) =~= s@.skip(i + 1));
                assert(r@ + stars_to_any(s@.skip(i + 1)) =~= before + stars_to_any(tail));
            }
            i += 1;
        }
    }
    proof {
        assert(r@ + stars_to_any(s@.skip(s.len() as int)) =~= r@);
    }
    let ghost body = r@;
    r.push('$');
    assert(r@ =~= seq!['^'] + stars_to_any(s@) + seq!['$']);
    r
}

impl WhitelistManager {
    #[verifier::type_invariant]
    spec fn compiled(self) -> bool {
        let ps = pattern_views(self.all_patterns@);
        &&& self.exact_patterns@ == exact_set(ps)
        &&& subdomain_views(self.subdomain_patterns@) == subdomain_list(ps)
        &&& forall|k: int|
            0 <= k < self.subdomain_patterns@.len() ==> (#[trigger] self.subdomain_patterns@[k]).dotted@
                == seq!['.'] + self.subdomain_patterns@[k].exact@
        &&& strings(self.regex_pattern_strings@) == regex_originals(ps)
        &&& match self.regex_set {
            Some(set) => regex_set_sources(set) == regex_sources(ps) && regex_set_compiles(
                regex_sources(ps),
            ) && regex_sources(ps).len() > 0,
            None => regex_sources(ps).len() == 0 || !regex_set_compiles(regex_sources(ps)),
        }
    }

    /// The whitelist without patterns, which covers nothing.
    pub fn new() -> (r: WhitelistManager)
        ensures
            r@ == Seq::<PatternView>::empty(),
    {
        let all_patterns: Vec<PatternInfo> = Vec::new();
        let subdomain_patterns: Vec<SubdomainPattern> = Vec::new();
        let regex_pattern_strings: Vec<String> = Vec::new();
        proof {
            assert(pattern_views(all_patterns@) =~= Seq::<PatternView>::empty());
            assert(subdomain_views(subdomain_patterns@) =~= Seq::<Seq<char>>::empty());
            assert(strings(regex_pattern_strings@) =~= Seq::<Seq<char>>::empty());
        }
        WhitelistManager {
            exact_patterns: StringHashSet::new(),
            subdomain_patterns,
            regex_set: None,
            all_patterns,
            regex_pattern_strings,
        }
    }

    /// The whitelist that a text describes: see `parse_whitelist`.
    pub fn from_content(content: &str) -> (r: WhitelistManager)
        ensures
            r@ == parse_whitelist(content@),
    {
        let all = split_lines(content);
        let mut exact_patterns = StringHashSet::new();
        let mut subdomain_patterns: Vec<SubdomainPattern> = Vec::new();
        let mut sources: Vec<String> = Vec::new();
        let mut all_patterns: Vec<PatternInfo> = Vec::new();
        let mut regex_pattern_strings: Vec<String> = Vec::new();
        proof {
            assert(texts(all@).take(0) =~= Seq::<Seq<char>>::empty());
            assert(pattern_views(all_patterns@) =~= Seq::<PatternView>::empty());
            assert(subdomain_views(subdomain_patterns@) =~= Seq::<Seq<char>>::empty());
            assert(strings(regex_pattern_strings@) =~= Seq::<Seq<char>>::empty());
            assert(strings(sources@) =~= Seq::<Seq<char>>::empty());
        }
        let mut i: usize = 0;
        while i < all.len()
            invariant
                i <= all.len(),
                pattern_views(all_patterns@) == parse_patterns(texts(all@).take(i as int)),
                exact_patterns@ == exact_set(pattern_views(all_patterns@)),
                subdomain_views(subdomain_patterns@) == subdomain_list(
                    pattern_views(all_patterns@),
                ),
                forall|k: int|
                    0 <= k < subdomain_patterns@.len() ==> (#[trigger] subdomain_patterns@[k]).dotted@
                        == seq!['.'] + subdomain_patterns@[k].exact@,
                strings(regex_pattern_strings@) == regex_originals(pattern_views(all_patterns@)),
                strings(sources@) == regex_sources(pattern_views(all_patterns@)),
            decreases all.len() - i,
        {
            proof {
                let p = texts(all@).take(i + 1);
                assert(p.drop_last() =~= texts(all@).take(i as int));
                assert(p.last() == all[i as int]@);
            }
            let line = trim_chars(&all[i]);
            let cut = find_char(&line, '#');
            let head = slice_of(&line, 0, cut);
            let pattern = trim_chars(&head);
            assert(pattern@ == pattern_text(all[i as int]@));
            i += 1;
            if pattern.len() == 0 {
                continue ;
            }
            let kind = classify_chars(&pattern);
            let original = string_of(&pattern, 0, pattern.len());
            assert(original@ == pattern@) by {
                assert(pattern@.subrange(0, pattern.len() as int) =~= pattern@);
            }
            let ghost before = pattern_views(all_patterns@);
            let ghost view = PatternView { original: pattern@, pattern_type: kind };
            match kind {
                PatternType::Regex => {
                    let ghost old_sources = strings(sources@);
                    let ghost old_originals = strings(regex_pattern_strings@);
                    let body = string_of(&pattern, 1, pattern.len() - 1);
                    sources.push(body);
                    regex_pattern_strings.push(original.clone());
                    proof {
                        assert(strings(sources@) =~= old_sources.push(regex_body(pattern@)));
                        assert(strings(regex_pattern_strings@) =~= old_originals.push(pattern@));
                    }
                },
                PatternType::Subdomain => {
                    let ghost old_subs = subdomain_views(subdomain_patterns@);
                    let start = marks_end(&pattern);
                    let bare = string_of(&pattern, start, pattern.len());
                    assert(bare@ == without_marks(pattern@)) by {
                        assert(pattern@.subrange(start as int, pattern.len() as int)
                            =~= pattern@.skip(start as int));
                    }
                    let exact = to_lowercase(bare.as_str());
                    let mut dotted = ".".to_string();
                    dotted.append(exact.as_str());
                    proof {
                        reveal_strlit(".");
                        assert("."@ =~= seq!['.']);
                    }
                    subdomain_patterns.push(SubdomainPattern { exact, dotted });
                    proof {
                        assert(subdomain_views(subdomain_patterns@) =~= old_subs.push(
                            subdomain_of(pattern@),
                        ));
                    }
                },
                PatternType::Wildcard => {
                    let ghost old_sources = strings(sources@);
                    let ghost old_originals = strings(regex_pattern_strings@);
                    let quoted = escape(original.as_str());
                    let quoted_chars = to_chars(quoted.as_str());
                    let source_chars = anchored_any(&quoted_chars);
                    let source = string_of(&source_chars, 0, source_chars.len());
                    assert(source@ == wildcard_source(pattern@)) by {
                        assert(source_chars@.subrange(0, source_chars.len() as int)
                            =~= source_chars@);
                    }
                    sources.push(source);
                    regex_pattern_strings.push(original.clone());
                    proof {
                        assert(strings(sources@) =~= old_sources.push(wildcard_source(pattern@)));
                        assert(strings(regex_pattern_strings@) =~= old_originals.push(pattern@));
                    }
                },
                PatternType::Exact => {
                    exact_patterns.insert(to_lowercase(original.as_str()));
                },
            }
            all_patterns.push(PatternInfo { original, pattern_type: kind });
            proof {
                assert(pattern_views(all_patterns@) =~= before.push(view));
                assert(pattern_views(all_patterns@).drop_last() =~= before);
            }
        }
        assert(texts(all@).take(all.len() as int) =~= texts(all@));
        let regex_set = if sources.len() > 0 {
            match compile_set(&sources) {
                Ok(set) => Some(set),
                Err(_) => None,
            }
        } else {
            None
        };
        WhitelistManager {
            exact_patterns,
            subdomain_patterns,
            regex_set,
            all_patterns,
            regex_pattern_strings,
        }
    }

    /// Whether the whitelist covers `domain`: see `whitelisted`.
    pub fn is_whitelisted(&self, domain: &str) -> (r: bool)
        ensures
            r == whitelisted(self@, domain@),
    {
        proof {
            use_type_invariant(self);
        }
        if self.exact_patterns.contains(domain) {
            return true;
        }
        let mut k: usize = 0;
        while k < self.subdomain_patterns.len()
            invariant
                k <= self.subdomain_patterns.len(),
                subdomain_views(self.subdomain_patterns@) == subdomain_list(self@),
                forall|j: int|
                    0 <= j < self.subdomain_patterns@.len() ==> (
                    #[trigger] self.subdomain_patterns@[j]).dotted@ == seq!['.']
                        + self.subdomain_patterns@[j].exact@,
                forall|j: int| 0 <= j < k ==> !is_within(#[trigger] subdomain_list(self@)[j], domain@),
            decreases self.subdomain_patterns.len() - k,
        {
            let sub = &self.subdomain_patterns[k];
            assert(subdomain_views(self.subdomain_patterns@)[k as int] == sub.exact@);
            if str_eq(domain, sub.exact.as_str()) || str_ends_with(domain, sub.dotted.as_str()) {
                return true;
            }
            k += 1;
        }
        match &self.regex_set {
            Some(set) => set_is_match(set, domain),
            None => false,
        }
    }

    /// The patterns, in the order in which they were written.
    pub fn patterns(&self) -> (r: &Vec<PatternInfo>)
        ensures
            pattern_views(r@) == self@,
    {
        &self.all_patterns
    }

    /// The patterns as they were written, in their order.
    pub fn patterns_as_strings(&self) -> (r: Vec<String>)
        ensures
            r@.len() == self@.len(),
            forall|i: int| 0 <= i < r@.len() ==> (#[trigger] r@[i])@ == self@[i].original,
    {
        let mut r: Vec<String> = Vec::new();
        let mut i: usize = 0;
        while i < self.all_patterns.len()
            invariant
                i <= self.all_patterns.len(),
                r@.len() == i,
                forall|j: int|
                    0 <= j < i ==> (#[trigger] r@[j])@ == pattern_views(
                        self.all_patterns@,
                    )[j].original,
            decreases self.all_patterns.len() - i,
        {
            r.push(self.all_patterns[i].original.clone());
            i += 1;
        }
        r
    }

    /// The progress record of a finished whitelist stage.
    pub fn create_progress(
        &self,
        domains_before: u64,
        domains_after: u64,
        pattern_matches: Vec<WhitelistPatternMatch>,
    ) -> (r: WhitelistProgress)
        ensures
            r.domains_before == domains_before,
            r.domains_after == domains_after,
            r.total_removed == if domains_before >= domains_after {
                domains_before - domains_after
            } else {
                0
            },
            !r.processing,
            r.patterns == pattern_matches,
    {
        let total_removed = if domains_before >= domains_after {
            domains_before - domains_after
        } else {
            0
        };
        WhitelistProgress {
            domains_before,
            domains_after,
            total_removed,
            processing: false,
            patterns: pattern_matches,
        }
    }
}

impl View for WhitelistManager {
    type V = Seq<PatternView>;

    closed spec fn view(&self) -> Seq<PatternView> {
        pattern_views(self.all_patterns@)
    }
}

impl Default for WhitelistManager {
    fn default() -> (r: WhitelistManager)
        ensures
            r@ == Seq::<PatternView>::empty(),
    {
        WhitelistManager::new()
    }
}

/// The values of a list of pattern matches.
pub open spec fn match_views(ms: Seq<WhitelistPatternMatch>) -> Seq<PatternMatchView> {
    ms.map_values(|m: WhitelistPatternMatch| m@)
}

/// The domains of `ds` that the whitelist made of `ps` does not cover, in
/// their order.
pub open spec fn kept_domains(ps: Seq<PatternView>, ds: Seq<Seq<char>>) -> Seq<Seq<char>>
    decreases ds.len(),
{
    if ds.len() == 0 {
        Seq::empty()
    } else if whitelisted(ps, ds.last()) {
        kept_domains(ps, ds.drop_last())
    } else {
        kept_domains(ps, ds.drop_last()).push(ds.last())
    }
}

/// The domains of `ds` that the whitelist made of `ps` covers, in their order.
pub open spec fn removed_domains(ps: Seq<PatternView>, ds: Seq<Seq<char>>) -> Seq<Seq<char>>
    decreases ds.len(),
{
    if ds.len() == 0 {
        Seq::empty()
    } else if whitelisted(ps, ds.last()) {
        removed_domains(ps, ds.drop_last()).push(ds.last())
    } else {
        removed_domains(ps, ds.drop_last())
    }
}

/// How many of `ds` the single pattern `p` matches.
pub open spec fn match_count(p: PatternView, ds: Seq<Seq<char>>) -> nat
    decreases ds.len(),
{
    if ds.len() == 0 {
        0
    } else {
        match_count(p, ds.drop_last()) + if pattern_matches(p, ds.last()) {
            1nat
        } else {
            0nat
        }
    }
}

/// Whether `ms` has an entry for the pattern text `pattern`.
pub open spec fn is_listed(ms: Seq<PatternMatchView>, pattern: Seq<char>) -> bool {
    exists|k: int| 0 <= k < ms.len() && (#[trigger] ms[k]).pattern == pattern
}

/// The patterns of `ps` that match at least one of `removed`, each with the
/// number it matches, in the order of `ps`; a pattern text that is written
/// more than once is listed once.
pub open spec fn tally(ps: Seq<PatternView>, removed: Seq<Seq<char>>) -> Seq<PatternMatchView>
    decreases ps.len(),
{
    if ps.len() == 0 {
        Seq::empty()
    } else {
        let rest = tally(ps.drop_last(), removed);
        let p = ps.last();
        let n = match_count(p, removed);
        if n > 0 && !is_listed(rest, p.original) {
            rest.push(
                PatternMatchView {
                    pattern: p.original,
                    pattern_type: p.pattern_type.name(),
                    match_count: n,
                    samples: Seq::empty(),
                },
            )
        } else {
            rest
        }
    }
}

/// The place of an entry with `count` matches in `sorted`: behind every
/// entry that has at least as many.
pub open spec fn rank_position(sorted: Seq<PatternMatchView>, count: nat) -> int
    decreases sorted.len(),
{
    if sorted.len() > 0 && sorted[0].match_count >= count {
        1 + rank_position(sorted.drop_first(), count)
    } else {
        0
    }
}

/// `ms` in descending order of the number of matches; entries with the same
/// number keep their order.
pub open spec fn ranked(ms: Seq<PatternMatchView>) -> Seq<PatternMatchView>
    decreases ms.len(),
{
    if ms.len() == 0 {
        Seq::empty()
    } else {
        let rest = ranked(ms.drop_last());
        rest.insert(rank_position(rest, ms.last().match_count), ms.last())
    }
}

/// The most that a report lists.
pub const MAX_REPORTED_PATTERNS: usize = 20;

/// The report on the patterns: the tally in descending order of matches, cut
/// after twenty entries.
pub open spec fn top_matches(ps: Seq<PatternView>, removed: Seq<Seq<char>>) -> Seq<
    PatternMatchView,
> {
    let r = ranked(tally(ps, removed));
    if r.len() > MAX_REPORTED_PATTERNS {
        r.take(MAX_REPORTED_PATTERNS as int)
    } else {
        r
    }
}

/// A filter splits its input: what is kept and what is removed is all of it,
/// nothing is both, and neither holds anything twice that the input held once.
pub proof fn lemma_filter_splits(ps: Seq<PatternView>, ds: Seq<Seq<char>>)
    ensures
        kept_domains(ps, ds).len() + removed_domains(ps, ds).len() == ds.len(),
        forall|d: Seq<char>|
            kept_domains(ps, ds).contains(d) <==> ds.contains(d) && !whitelisted(ps, d),
        forall|d: Seq<char>|
            removed_domains(ps, ds).contains(d) <==> ds.contains(d) && whitelisted(ps, d),
        ds.no_duplicates() ==> kept_domains(ps, ds).no_duplicates() && removed_domains(
            ps,
            ds,
        ).no_duplicates(),
    decreases ds.len(),
{
    if ds.len() > 0 {
        let front = ds.drop_last();
        let last = ds.last();
        lemma_filter_splits(ps, front);
        assert(ds =~= front.push(last));
        assert forall|d: Seq<char>| ds.contains(d) <==> front.contains(d) || d == last by {
            if ds.contains(d) {
                let i = choose|i: int| 0 <= i < ds.len() && ds[i] == d;
                if i < front.len() {
                    assert(front[i] == d);
                }
            }
            if front.contains(d) {
                let i = choose|i: int| 0 <= i < front.len() && front[i] == d;
                assert(ds[i] == d);
            }
            if d == last {
                assert(ds[ds.len() - 1] == d);
            }
        }
        let k = kept_domains(ps, front);
        let r = removed_domains(ps, front);
        assert forall|d: Seq<char>| k.push(last).contains(d) <==> k.contains(d) || d == last by {
            if k.push(last).contains(d) {
                let i = choose|i: int| 0 <= i < k.push(last).len() && k.push(last)[i] == d;
                if i < k.len() {
                    assert(k[i] == d);
                }
            }
            if k.contains(d) {
                let i = choose|i: int| 0 <= i < k.len() && k[i] == d;
                assert(k.push(last)[i] == d);
            }
            if d == last {
                assert(k.push(last)[k.len() as int] == d);
            }
        }
        assert forall|d: Seq<char>| r.push(last).contains(d) <==> r.contains(d) || d == last by {
            if r.push(last).contains(d) {
                let i = choose|i: int| 0 <= i < r.push(last).len() && r.push(last)[i] == d;
                if i < r.len() {
                    assert(r[i] == d);
                }
            }
            if r.contains(d) {
                let i = choose|i: int| 0 <= i < r.len() && r[i] == d;
                assert(r.push(last)[i] == d);
            }
            if d == last {
                assert(r.push(last)[r.len() as int] == d);
            }
        }
        if ds.no_duplicates() {
            assert(front.no_duplicates());
            assert(!front.contains(last)) by {
                if front.contains(last) {
                    let i = choose|i: int| 0 <= i < front.len() && front[i] == last;
                    assert(ds[i] == ds[ds.len() - 1]);
                }
            }
        }
    }
}

/// A whitelist parts a set of domains in two: what is kept and what is
/// removed make up the set, and nothing is both kept and removed.
pub proof fn law_filter_parts_its_input(ps: Seq<PatternView>, ds: Seq<Seq<char>>)
    requires
        ds.no_duplicates(),
    ensures
        kept_domains(ps, ds).to_set().union(removed_domains(ps, ds).to_set()) == ds.to_set(),
        kept_domains(ps, ds).to_set().disjoint(removed_domains(ps, ds).to_set()),
        kept_domains(ps, ds).to_set().len() + removed_domains(ps, ds).to_set().len()
            == ds.to_set().len(),
{
    lemma_filter_splits(ps, ds);
    let kept = kept_domains(ps, ds);
    let removed = removed_domains(ps, ds);
    assert(kept.to_set().union(removed.to_set()) =~= ds.to_set());
    assert forall|d: Seq<char>| !(kept.to_set().contains(d) && removed.to_set().contains(d)) by {
        assert(kept.contains(d) ==> !whitelisted(ps, d));
        assert(removed.contains(d) ==> whitelisted(ps, d));
    }
    kept.unique_seq_to_set();
    removed.unique_seq_to_set();
    ds.unique_seq_to_set();
}

/// A pattern made ready to be matched against many domains.
enum Matcher {
    Exact(String),
    Subdomain(String, String),
    Compiled(regex::Regex),
    Nothing,
}

impl Matcher {
    /// Whether this is `p` made ready.
    spec fn stands_for(self, p: PatternView) -> bool {
        match self {
            Matcher::Exact(lowered) => p.pattern_type == PatternType::Exact && lowered@
                == unicode_lowercase(p.original),
            Matcher::Subdomain(exact, dotted) => p.pattern_type == PatternType::Subdomain
                && exact@ == subdomain_of(p.original) && dotted@ == seq!['.'] + exact@,
            Matcher::Compiled(re) => match p.pattern_type {
                PatternType::Wildcard => regex_source(re) == wildcard_source(p.original)
                    && regex_compiles(wildcard_source(p.original)),
                PatternType::Regex => regex_source(re) == regex_body(p.original) && regex_compiles(
                    regex_body(p.original),
                ),
                _ => false,
            },
            Matcher::Nothing => match p.pattern_type {
                PatternType::Wildcard => !regex_compiles(wildcard_source(p.original)),
                PatternType::Regex => !regex_compiles(regex_body(p.original)),
                _ => false,
            },
        }
    }

    /// The pattern made ready.
    fn prepare(pattern: &PatternInfo) -> (m: Matcher)
        ensures
            m.stands_for(pattern@),
    {
        match pattern.pattern_type {
            PatternType::Exact => Matcher::Exact(to_lowercase(pattern.original.as_str())),
            PatternType::Subdomain => {
                let chars = to_chars(pattern.original.as_str());
                let start = marks_end(&chars);
                let bare = string_of(&chars, start, chars.len());
                assert(bare@ == without_marks(pattern.original@)) by {
                    assert(chars@.subrange(start as int, chars.len() as int) =~= chars@.skip(
                        start as int,
                    ));
                }
                let exact = to_lowercase(bare.as_str());
                let mut dotted = ".".to_string();
                dotted.append(exact.as_str());
                proof {
                    reveal_strlit(".");
                    assert("."@ =~= seq!['.']);
                }
                Matcher::Subdomain(exact, dotted)
            },
            PatternType::Wildcard => {
                let quoted = escape(pattern.original.as_str());
                let quoted_chars = to_chars(quoted.as_str());
                let source_chars = anchored_any(&quoted_chars);
                let source = string_of(&source_chars, 0, source_chars.len());
                assert(source@ == wildcard_source(pattern.original@)) by {
                    assert(source_chars@.subrange(0, source_chars.len() as int) =~= source_chars@);
                }
                match compile(source.as_str()) {
                    Ok(re) => Matcher::Compiled(re),
                    Err(_) => Matcher::Nothing,
                }
            },
            PatternType::Regex => {
                let chars = to_chars(pattern.original.as_str());
                let body = if chars.len() >= 2 {
                    string_of(&chars, 1, chars.len() - 1)
                } else {
                    String::new()
                };
                match compile(body.as_str()) {
                    Ok(re) => Matcher::Compiled(re),
                    Err(_) => Matcher::Nothing,
                }
            },
        }
    }

    /// Whether the pattern matches `domain`.
    fn matches(&self, domain: &str, Ghost(p): Ghost<PatternView>) -> (r: bool)
        requires
            self.stands_for(p),
        ensures
            r == pattern_matches(p, domain@),
    {
        match self {
            Matcher::Exact(lowered) => str_eq(lowered.as_str(), domain),
            Matcher::Subdomain(exact, dotted) => str_eq(domain, exact.as_str()) || str_ends_with(
                domain,
                dotted.as_str(),
            ),
            Matcher::Compiled(re) => is_match(re, domain),
            Matcher::Nothing => false,
        }
    }
}

/// Puts `m` into `sorted` behind every entry with at least as many matches.
fn insert_ranked(sorted: &mut Vec<WhitelistPatternMatch>, m: WhitelistPatternMatch)
    ensures
        match_views(final(sorted)@) == match_views(old(sorted)@).insert(
            rank_position(match_views(old(sorted)@), m@.match_count),
            m@,
        ),
{
    let ghost views = match_views(sorted@);
    let mut k: usize = 0;
    assert(views.skip(0) =~= views);
    while k < sorted.len() && sorted[k].match_count >= m.match_count
        invariant
            k <= sorted.len(),
            views == match_views(sorted@),
            rank_position(views, m@.match_count) == k + rank_position(
                views.skip(k as int),
                m@.match_count,
            ),
        decreases sorted.len() - k,
    {
        assert(views.skip(k as int).drop_first() =~= views.skip(k + 1));
        k += 1;
    }
    sorted.insert(k, m);
    assert(match_views(sorted@) =~= views.insert(k as int, m@));
}

impl WhitelistManager {
    /// Whether the single pattern `pattern` matches `domain`: see
    /// `pattern_matches`.
    pub fn matches_pattern(&self, domain: &str, pattern: &PatternInfo) -> (r: bool)
        ensures
            r == pattern_matches(pattern@, domain@),
    {
        let matcher = Matcher::prepare(pattern);
        matcher.matches(domain, Ghost(pattern@))
    }

    /// How many of `removed` the single pattern `pattern` matches.
    fn count_matches(pattern: &PatternInfo, removed: &Vec<String>) -> (n: u64)
        ensures
            n == match_count(pattern@, strings(removed@)),
    {
        let matcher = Matcher::prepare(pattern);
        let mut n: u64 = 0;
        let mut i: usize = 0;
        assert(strings(removed@).take(0) =~= Seq::<Seq<char>>::empty());
        while i < removed.len()
            invariant
                i <= removed.len(),
                matcher.stands_for(pattern@),
                n == match_count(pattern@, strings(removed@).take(i as int)),
                n <= i,
            decreases removed.len() - i,
        {
            proof {
                let p = strings(removed@).take(i + 1);
                assert(p.drop_last() =~= strings(removed@).take(i as int));
                assert(p.last() == removed[i as int]@);
            }
            if matcher.matches(removed[i].as_str(), Ghost(pattern@)) {
                n += 1;
            }
            i += 1;
        }
        assert(strings(removed@).take(removed.len() as int) =~= strings(removed@));
        n
    }

    /// The report on the patterns, given the domains that were removed: see
    /// `top_matches`.
    pub fn pattern_statistics(&self, removed: &Vec<String>) -> (report: Vec<WhitelistPatternMatch>)
        ensures
            match_views(report@) == top_matches(self@, strings(removed@)),
    {
        let patterns = self.patterns();
        let ghost ps = self@;
        let ghost ds = strings(removed@);
        let mut report: Vec<WhitelistPatternMatch> = Vec::new();
        let mut seen = StringHashSet::new();
        let mut i: usize = 0;
        proof {
            assert(ps.take(0) =~= Seq::<PatternView>::empty());
            assert(match_views(report@) =~= Seq::<PatternMatchView>::empty());
        }
        while i < patterns.len()
            invariant
                i <= patterns.len(),
                ps == pattern_views(patterns@),
                ds == strings(removed@),
                match_views(report@) == ranked(tally(ps.take(i as int), ds)),
                forall|t: Seq<char>|
                    seen@.contains(t) <==> is_listed(tally(ps.take(i as int), ds), t),
            decreases patterns.len() - i,
        {
            let pattern = &patterns[i];
            let ghost before = tally(ps.take(i as int), ds);
            let ghost after = tally(ps.take(i + 1), ds);
            proof {
                let front = ps.take(i + 1);
                assert(front.drop_last() =~= ps.take(i as int));
                assert(front.last() == pattern@);
            }
            let n = Self::count_matches(pattern, removed);
            if n > 0 && !seen.contains(pattern.original.as_str()) {
                let entry = WhitelistPatternMatch {
                    pattern: pattern.original.clone(),
                    pattern_type: pattern.pattern_type.to_string(),
                    match_count: n,
                    samples: Vec::new(),
                };
                proof {
                    assert(strings(entry.samples@) =~= Seq::<Seq<char>>::empty());
                    assert(after == before.push(entry@));
                    assert(after.drop_last() =~= before);
                    assert forall|t: Seq<char>|
                        seen@.insert(pattern.original@).contains(t) <==> is_listed(after, t) by {
                        if is_listed(after, t) {
                            let k = choose|k: int|
                                0 <= k < after.len() && (#[trigger] after[k]).pattern == t;
                            if k < before.len() {
                                assert(before[k].pattern == t);
                            }
                        }
                        if is_listed(before, t) {
                            let k = choose|k: int|
                                0 <= k < before.len() && (#[trigger] before[k]).pattern == t;
                            assert(after[k].pattern == t);
                        }
                        if t == pattern.original@ {
                            assert(after[before.len() as int].pattern == t);
                        }
                    }
                }
                seen.insert(pattern.original.clone());
                insert_ranked(&mut report, entry);
            }
            i += 1;
        }
        assert(ps.take(patterns.len() as int) =~= ps);
        if report.len() > MAX_REPORTED_PATTERNS {
            let ghost full = match_views(report@);
            report.truncate(MAX_REPORTED_PATTERNS);
            assert(match_views(report@) =~= full.take(MAX_REPORTED_PATTERNS as int));
        }
        report
    }

    /// Removes from `domains` what the whitelist covers. Returns what is
    /// left, in its old order, the number of domains removed, and the report
    /// on the patterns that removed them.
    pub fn filter_domains(&self, domains: DomainSet) -> (r: (
        DomainSet,
        u64,
        Vec<WhitelistPatternMatch>,
    ))
        ensures
            r.0.order() == kept_domains(self@, domains.order()),
            r.1 == removed_domains(self@, domains.order()).len(),
            match_views(r.2@) == top_matches(self@, removed_domains(self@, domains.order())),
            forall|d: Seq<char>| r.0@.contains(d) <==> domains@.contains(d) && !whitelisted(self@, d),
            r.0@.len() + r.1 == domains@.len(),
    {
        self.filter(&domains)
    }

    /// The domains of `domains` that the whitelist does not cover, in
    /// their order.
    pub fn without_whitelisted(&self, domains: &DomainSet) -> (kept: DomainSet)
        ensures
            kept.order() == kept_domains(self@, domains.order()),
            forall|d: Seq<char>| kept@.contains(d) <==> domains@.contains(d) && !whitelisted(self@, d),
            kept@.finite(),
    {
        let ghost order = domains.order();
        let items = domains.items();
        let mut kept: Vec<String> = Vec::new();
        let mut i: usize = 0;
        proof {
            assert(order.take(0) =~= Seq::<Seq<char>>::empty());
            assert(strings(kept@) =~= Seq::<Seq<char>>::empty());
        }
        while i < items.len()
            invariant
                i <= items.len(),
                order == strings(items@),
                strings(kept@) == kept_domains(self@, order.take(i as int)),
            decreases items.len() - i,
        {
            proof {
                let front = order.take(i + 1);
                assert(front.drop_last() =~= order.take(i as int));
                assert(front.last() == items[i as int]@);
            }
            if !self.is_whitelisted(items[i].as_str()) {
                let ghost old_kept = strings(kept@);
                let domain = items[i].clone();
                kept.push(domain);
                assert(strings(kept@) =~= old_kept.push(domain@));
            }
            i += 1;
        }
        proof {
            assert(order.take(items.len() as int) =~= order);
            lemma_filter_splits(self@, order);
        }
        let left = DomainSet::from_distinct(kept);
        proof {
            assert forall|d: Seq<char>| left@.contains(d) <==> domains@.contains(d) && !whitelisted(
                self@,
                d,
            ) by {
                assert(left@.contains(d) <==> kept_domains(self@, order).contains(d));
                assert(domains@.contains(d) <==> order.contains(d));
            }
        }
        left
    }

    /// What `filter_domains` returns, for a set that is only lent.
    pub fn filter(&self, domains: &DomainSet) -> (r: (DomainSet, u64, Vec<WhitelistPatternMatch>))
        ensures
            r.0.order() == kept_domains(self@, domains.order()),
            r.1 == removed_domains(self@, domains.order()).len(),
            match_views(r.2@) == top_matches(self@, removed_domains(self@, domains.order())),
            forall|d: Seq<char>| r.0@.contains(d) <==> domains@.contains(d) && !whitelisted(self@, d),
            r.0@.len() + r.1 == domains@.len(),
            domains.order().no_duplicates(),
            domains.order().to_set() == domains@,
            r.0@.finite(),
            domains@.finite(),
    {
        let ghost order = domains.order();
        let ghost before = domains@;
        let items = domains.items();
        let mut kept: Vec<String> = Vec::new();
        let mut removed: Vec<String> = Vec::new();
        let mut i: usize = 0;
        proof {
            assert(order.take(0) =~= Seq::<Seq<char>>::empty());
            assert(strings(kept@) =~= Seq::<Seq<char>>::empty());
            assert(strings(removed@) =~= Seq::<Seq<char>>::empty());
        }
        while i < items.len()
            invariant
                i <= items.len(),
                order == strings(items@),
                strings(kept@) == kept_domains(self@, order.take(i as int)),
                strings(removed@) == removed_domains(self@, order.take(i as int)),
            decreases items.len() - i,
        {
            proof {
                let front = order.take(i + 1);
                assert(front.drop_last() =~= order.take(i as int));
                assert(front.last() == items[i as int]@);
            }
            let ghost old_kept = strings(kept@);
            let ghost old_removed = strings(removed@);
            let domain = items[i].clone();
            if self.is_whitelisted(domain.as_str()) {
                removed.push(domain);
                assert(strings(removed@) =~= old_removed.push(domain@));
            } else {
                kept.push(domain);
                assert(strings(kept@) =~= old_kept.push(domain@));
            }
            i += 1;
        }
        proof {
            assert(order.take(items.len() as int) =~= order);
            lemma_filter_splits(self@, order);
        }
        let report = self.pattern_statistics(&removed);
        let count = removed.len() as u64;
        let left = DomainSet::from_distinct(kept);
        proof {
            assert forall|d: Seq<char>| left@.contains(d) <==> before.contains(d) && !whitelisted(
                self@,
                d,
            ) by {
                assert(left@.contains(d) <==> kept_domains(self@, order).contains(d));
                assert(before.contains(d) <==> order.contains(d));
            }
        }
        (left, count, report)
    }
}

} // verus!
