//! The line grammar of blocklist sources. A line is a comment, a cosmetic
//! filter, a hosts entry, an adblock rule, a plain domain, or nothing of use;
//! the three forms in the middle name a domain, which is emitted in lower case.

use crate::domains::{is_sorted, is_strictly_sorted, DomainSet};
use crate::text::{
    ascii_lowercase, char_ascii_lower, char_is_whitespace, contains_any, contains_one_of, find_char,
    has_prefix, index_of, is_whitespace, lines, lowercase_string_of, matches_at, slice_of,
    split_lines, string_of, strings, texts, to_chars, trim, trim_chars, ascii_lower,
};
use vstd::prelude::*;

verus! {

/// The form in which a line named its domain.
#[derive(Debug, Clone, Copy, PartialEq, Eq, Structural)]
pub enum DetectedFormat {
    Hosts,
    Plain,
    Adblock,
}

/// What one line yields.
#[derive(Debug, Clone, PartialEq)]
pub struct ExtractionResult {
    /// The domain, in lower case.
    pub domain: String,
    /// The trimmed line itself where it was an adblock rule, kept for pass-through.
    pub raw_adblock_rule: Option<String>,
}

/// The mathematical value of an `ExtractionResult`.
pub struct ExtractionView {
    pub domain: Seq<char>,
    pub raw_adblock_rule: Option<Seq<char>>,
}

impl View for ExtractionResult {
    type V = ExtractionView;

    open spec fn view(&self) -> ExtractionView {
        ExtractionView {
            domain: self.domain@,
            raw_adblock_rule: match self.raw_adblock_rule {
                Some(r) => Some(r@),
                None => None,
            },
        }
    }
}

/// How many domains a source named in each form.
#[derive(Debug, Clone, PartialEq)]
pub struct FormatBreakdown {
    pub hosts: u64,
    pub plain: u64,
    pub adblock: u64,
}

/// The results of a whole text, with the count of each form.
#[derive(Debug, Clone)]
pub struct ExtractionOutput {
    pub results: Vec<ExtractionResult>,
    pub format_breakdown: FormatBreakdown,
}

/// The parser of blocklist lines. It holds the fixed words of the grammar as
/// characters, so that no line allocates them again.
pub struct DomainExtractor {
    zero_address: Vec<char>,
    loopback_address: Vec<char>,
    rule_prefix: Vec<char>,
    cosmetic: Vec<Vec<char>>,
    skipped: Vec<Vec<char>>,
}

/// A letter or digit of ASCII.
pub open spec fn is_alnum(c: char) -> bool {
    ('0' <= c <= '9') || ('a' <= c <= 'z') || ('A' <= c <= 'Z')
}

/// A character that may stand inside a label of a domain.
pub open spec fn is_label_char(c: char) -> bool {
    is_alnum(c) || c == '-'
}

/// Where the domain that is being read at `i` ends: label characters are
/// taken, and a dot where a letter or digit follows it, as long as there are any.
pub open spec fn run_end(s: Seq<char>, i: int) -> int
    decreases s.len() - i,
{
    if 0 <= i < s.len() && is_label_char(s[i]) {
        run_end(s, i + 1)
    } else if 0 <= i && i + 1 < s.len() && s[i] == '.' && is_alnum(s[i + 1]) {
        run_end(s, i + 2)
    } else {
        i
    }
}

/// Whether the domain that is being read at `i` still takes a dot.
pub open spec fn run_has_dot(s: Seq<char>, i: int) -> bool
    decreases s.len() - i,
{
    if 0 <= i < s.len() && is_label_char(s[i]) {
        run_has_dot(s, i + 1)
    } else {
        0 <= i && i + 1 < s.len() && s[i] == '.' && is_alnum(s[i + 1])
    }
}

/// The end of the domain that starts at `i`, if one does. A domain is two or
/// more labels joined by dots; a label is a letter or digit followed by any
/// number of letters, digits and hyphens. The longest such text is the domain.
pub open spec fn domain_at(s: Seq<char>, i: int) -> Option<int> {
    if 0 <= i < s.len() && is_alnum(s[i]) && run_has_dot(s, i + 1) {
        Some(run_end(s, i + 1))
    } else {
        None
    }
}

/// The first index from `i` on that holds no whitespace.
pub open spec fn whitespace_end(s: Seq<char>, i: int) -> int
    decreases s.len() - i,
{
    if 0 <= i < s.len() && is_whitespace(s[i]) {
        whitespace_end(s, i + 1)
    } else {
        i
    }
}

/// The addresses that a hosts entry may begin with.
pub open spec fn host_addresses() -> Seq<Seq<char>> {
    seq!["0.0.0.0"@, "127.0.0.1"@]
}

/// The marks of cosmetic filters, which hide elements in a browser and block
/// no domain.
pub open spec fn cosmetic_markers() -> Seq<Seq<char>> {
    seq!["##"@, "#@#"@, "#?#"@, "#$#"@, "#+js("@]
}

/// The modifiers of adblock rules that a resolver cannot honour.
pub open spec fn skipped_modifiers() -> Seq<Seq<char>> {
    seq![
        "third-party"@,
        "badfilter"@,
        "removeparam"@,
        "redirect"@,
        "csp"@,
        "replace"@,
        "cookie"@,
    ]
}

/// The character that stands for `c` where case is ignored: the lower-case
/// letter for an ASCII capital, and `k` and `s` for the two other characters
/// that Unicode folds onto ASCII letters, the Kelvin sign and the long s.
pub open spec fn fold_char(c: char) -> char {
    if c == '\u{212A}' {
        'k'
    } else if c == '\u{17F}' {
        's'
    } else {
        ascii_lower(c)
    }
}

/// `s` with case folded away.
pub open spec fn fold_case(s: Seq<char>) -> Seq<char> {
    s.map_values(|c: char| fold_char(c))
}

/// Whether a modifier text, taken without regard to case, holds one of the
/// skipped modifiers.
pub open spec fn has_skipped_modifier(modifiers: Seq<char>) -> bool {
    contains_any(fold_case(modifiers), skipped_modifiers())
}

/// The length of the address that a hosts entry begins with.
pub open spec fn hosts_address_len(t: Seq<char>) -> Option<int> {
    if has_prefix(t, "0.0.0.0"@) {
        Some("0.0.0.0"@.len() as int)
    } else if has_prefix(t, "127.0.0.1"@) {
        Some("127.0.0.1"@.len() as int)
    } else {
        None
    }
}

/// The domain of a hosts entry: the line begins with `0.0.0.0` or `127.0.0.1`,
/// then whitespace, then a domain. What follows the domain is not looked at.
pub open spec fn hosts_domain(t: Seq<char>) -> Option<Seq<char>> {
    match hosts_address_len(t) {
        Some(a) => {
            let w = whitespace_end(t, a);
            match domain_at(t, w) {
                Some(e) => if w > a {
                    Some(t.subrange(w, e))
                } else {
                    None
                },
                None => None,
            }
        },
        None => None,
    }
}

/// The domain and the modifiers of an adblock rule: the line is `||`, a
/// domain, an optional `^`, and then either nothing or `$` with at least one
/// more character, none of them a line feed. The modifiers are given from the
/// `$` on, and are empty where the rule has none.
pub open spec fn adblock_rule(t: Seq<char>) -> Option<(Seq<char>, Seq<char>)> {
    if has_prefix(t, "||"@) {
        let start = "||"@.len() as int;
        match domain_at(t, start) {
            Some(e) => {
                let m = if e < t.len() && t[e] == '^' {
                    e + 1
                } else {
                    e
                };
                if m == t.len() {
                    Some((t.subrange(start, e), Seq::empty()))
                } else if t[m] == '$' && m + 1 < t.len() && index_of(t.skip(m), '\n') == t.len() - m {
                    Some((t.subrange(start, e), t.skip(m)))
                } else {
                    None
                }
            },
            None => None,
        }
    } else {
        None
    }
}

/// Whether the whole line is one domain.
pub open spec fn is_plain_domain(t: Seq<char>) -> bool {
    domain_at(t, 0) == Some(t.len() as int)
}

/// What a line yields. The line is trimmed first. An empty line, a comment
/// (`#` or `!` first) and a cosmetic filter yield nothing. Then the forms are
/// tried in this order: hosts entry, adblock rule, plain domain. An adblock
/// rule with a skipped modifier yields nothing.
pub open spec fn parse_line(line: Seq<char>) -> Option<(ExtractionView, DetectedFormat)> {
    let t = trim(line);
    if t.len() == 0 || t[0] == '#' || t[0] == '!' {
        None
    } else if contains_any(t, cosmetic_markers()) {
        None
    } else if hosts_domain(t) is Some {
        Some(
            (
                ExtractionView {
                    domain: ascii_lowercase(hosts_domain(t).unwrap()),
                    raw_adblock_rule: None,
                },
                DetectedFormat::Hosts,
            ),
        )
    } else if adblock_rule(t) is Some {
        let (domain, modifiers) = adblock_rule(t).unwrap();
        if has_skipped_modifier(modifiers) {
            None
        } else {
            Some(
                (
                    ExtractionView { domain: ascii_lowercase(domain), raw_adblock_rule: Some(t) },
                    DetectedFormat::Adblock,
                ),
            )
        }
    } else if is_plain_domain(t) {
        Some(
            (
                ExtractionView { domain: ascii_lowercase(t), raw_adblock_rule: None },
                DetectedFormat::Plain,
            ),
        )
    } else {
        None
    }
}

/// What a list of lines yields: the yield of each line that has one, in the
/// order of the lines.
pub open spec fn parse_lines(ls: Seq<Seq<char>>) -> Seq<(ExtractionView, DetectedFormat)>
    decreases ls.len(),
{
    if ls.len() == 0 {
        Seq::empty()
    } else {
        match parse_line(ls.last()) {
            Some(p) => parse_lines(ls.drop_last()).push(p),
            None => parse_lines(ls.drop_last()),
        }
    }
}

/// What a text yields, line by line.
pub open spec fn parse_content(content: Seq<char>) -> Seq<(ExtractionView, DetectedFormat)> {
    parse_lines(lines(content))
}

/// How many of `found` came in the form `format`.
pub open spec fn count_format(
    found: Seq<(ExtractionView, DetectedFormat)>,
    format: DetectedFormat,
) -> nat
    decreases found.len(),
{
    if found.len() == 0 {
        0
    } else {
        count_format(found.drop_last(), format) + if found.last().1 == format {
            1nat
        } else {
            0nat
        }
    }
}

/// The values of a list of results.
pub open spec fn result_views(results: Seq<ExtractionResult>) -> Seq<ExtractionView> {
    results.map_values(|r: ExtractionResult| r@)
}

/// The results of a parse, without the forms.
pub open spec fn parsed_results(
    found: Seq<(ExtractionView, DetectedFormat)>,
) -> Seq<ExtractionView> {
    found.map_values(|p: (ExtractionView, DetectedFormat)| p.0)
}

pub proof fn lemma_run_bounds(s: Seq<char>, i: int)
    requires
        0 <= i <= s.len(),
    ensures
        i <= run_end(s, i) <= s.len(),
    decreases s.len() - i,
{
    if i < s.len() && is_label_char(s[i]) {
        lemma_run_bounds(s, i + 1);
    } else if i + 1 < s.len() && s[i] == '.' && is_alnum(s[i + 1]) {
        lemma_run_bounds(s, i + 2);
    }
}

/// At most as many results come in one form as there are results.
pub proof fn lemma_count_format_bound(
    found: Seq<(ExtractionView, DetectedFormat)>,
    format: DetectedFormat,
)
    ensures
        count_format(found, format) <= found.len(),
    decreases found.len(),
{
    if found.len() > 0 {
        lemma_count_format_bound(found.drop_last(), format);
    }
}

/// Every result comes in exactly one of the three forms.
pub proof fn law_every_result_has_one_form(found: Seq<(ExtractionView, DetectedFormat)>)
    ensures
        count_format(found, DetectedFormat::Hosts) + count_format(found, DetectedFormat::Plain)
            + count_format(found, DetectedFormat::Adblock) == found.len(),
    decreases found.len(),
{
    if found.len() > 0 {
        law_every_result_has_one_form(found.drop_last());
    }
}

/// A domain that is emitted holds only lower-case letters, digits, hyphens
/// and dots, and at least one dot.
pub proof fn law_emitted_domains_are_normal(line: Seq<char>)
    requires
        parse_line(line) is Some,
    ensures
        ({
            let d = parse_line(line).unwrap().0.domain;
            &&& d.len() >= 3
            &&& forall|i: int|
                0 <= i < d.len() ==> ('a' <= #[trigger] d[i] <= 'z') || ('0' <= d[i] <= '9') || d[i]
                    == '-' || d[i] == '.'
        }),
{
    let t = trim(line);
    if hosts_domain(t) is Some {
        let a = hosts_address_len(t).unwrap();
        let w = whitespace_end(t, a);
        lemma_domain_chars(t, w);
    } else if adblock_rule(t) is Some {
        lemma_domain_chars(t, "||"@.len() as int);
    } else {
        lemma_domain_chars(t, 0);
        assert(t.subrange(0, t.len() as int) =~= t);
    }
}

proof fn lemma_run_chars(s: Seq<char>, i: int)
    requires
        0 <= i <= s.len(),
    ensures
        forall|j: int|
            i <= j < run_end(s, i) ==> is_label_char(#[trigger] s[j]) || s[j] == '.',
        run_has_dot(s, i) ==> run_end(s, i) >= i + 2,
    decreases s.len() - i,
{
    lemma_run_bounds(s, i);
    if i < s.len() && is_label_char(s[i]) {
        lemma_run_chars(s, i + 1);
    } else if i + 1 < s.len() && s[i] == '.' && is_alnum(s[i + 1]) {
        lemma_run_chars(s, i + 2);
        lemma_run_bounds(s, i + 2);
    }
}

proof fn lemma_domain_chars(s: Seq<char>, i: int)
    requires
        domain_at(s, i) is Some,
    ensures
        ({
            let e = domain_at(s, i).unwrap();
            let d = ascii_lowercase(s.subrange(i, e));
            &&& i + 3 <= e <= s.len()
            &&& forall|j: int|
                0 <= j < d.len() ==> ('a' <= #[trigger] d[j] <= 'z') || ('0' <= d[j] <= '9') || d[j]
                    == '-' || d[j] == '.'
        }),
{
    lemma_run_chars(s, i + 1);
    lemma_run_bounds(s, i + 1);
    let e = domain_at(s, i).unwrap();
    let d = ascii_lowercase(s.subrange(i, e));
    assert forall|j: int| 0 <= j < d.len() implies ('a' <= #[trigger] d[j] <= 'z') || ('0' <= d[j]
        <= '9') || d[j] == '-' || d[j] == '.' by {
        let c = s[i + j];
        assert(s.subrange(i, e)[j] == c);
        assert(is_label_char(c) || c == '.');
    }
}

impl FormatBreakdown {
    /// The largest of the three counts.
    pub open spec fn largest(&self) -> u64 {
        if self.hosts >= self.plain && self.hosts >= self.adblock {
            self.hosts
        } else if self.plain >= self.adblock {
            self.plain
        } else {
            self.adblock
        }
    }

    /// The names of the forms that were seen, in the order hosts, plain, adblock.
    pub open spec fn spec_detected_formats(&self) -> Seq<Seq<char>> {
        (if self.hosts > 0 {
            seq!["hosts"@]
        } else {
            Seq::empty()
        }) + (if self.plain > 0 {
            seq!["plain"@]
        } else {
            Seq::empty()
        }) + (if self.adblock > 0 {
            seq!["adblock"@]
        } else {
            Seq::empty()
        })
    }

    /// The names of the forms that were seen, in the order hosts, plain, adblock.
    pub fn detected_formats(&self) -> (formats: Vec<String>)
        ensures
            strings(formats@) == self.spec_detected_formats(),
    {
        let mut formats: Vec<String> = Vec::new();
        if self.hosts > 0 {
            formats.push("hosts".to_string());
        }
        if self.plain > 0 {
            formats.push("plain".to_string());
        }
        if self.adblock > 0 {
            formats.push("adblock".to_string());
        }
        assert(strings(formats@) =~= self.spec_detected_formats());
        formats
    }

    /// The name of the most common form: none where nothing was seen; on a
    /// tie hosts goes before adblock, and adblock before plain.
    pub fn primary_format(&self) -> (name: Option<&'static str>)
        ensures
            self.largest() == 0 <==> name is None,
            self.largest() > 0 && self.hosts == self.largest() ==> name.unwrap()@ == "hosts"@,
            self.largest() > 0 && self.hosts != self.largest() && self.adblock == self.largest()
                ==> name.unwrap()@ == "adblock"@,
            self.largest() > 0 && self.hosts != self.largest() && self.adblock != self.largest()
                ==> name.unwrap()@ == "plain"@,
    {
        let mut max = self.hosts;
        if self.plain > max {
            max = self.plain;
        }
        if self.adblock > max {
            max = self.adblock;
        }
        if max == 0 {
            None
        } else if self.hosts == max {
            Some("hosts")
        } else if self.adblock == max {
            Some("adblock")
        } else {
            Some("plain")
        }
    }
}

impl Default for FormatBreakdown {
    fn default() -> (r: FormatBreakdown)
        ensures
            r.hosts == 0 && r.plain == 0 && r.adblock == 0,
    {
        FormatBreakdown { hosts: 0, plain: 0, adblock: 0 }
    }
}

fn char_is_alnum(c: char) -> (r: bool)
    ensures
        r == is_alnum(c),
{
    (c >= '0' && c <= '9') || (c >= 'a' && c <= 'z') || (c >= 'A' && c <= 'Z')
}

fn char_fold(c: char) -> (r: char)
    ensures
        r == fold_char(c),
{
    if c == '\u{212A}' {
        'k'
    } else if c == '\u{17F}' {
        's'
    } else {
        char_ascii_lower(c)
    }
}

/// The end of the domain that starts at `i`, if one does.
fn scan_domain(v: &Vec<char>, i: usize) -> (end: Option<usize>)
    requires
        i <= v.len(),
    ensures
        match end {
            Some(e) => domain_at(v@, i as int) == Some(e as int) && i < e <= v.len(),
            None => domain_at(v@, i as int) is None,
        },
{
    if i >= v.len() || !char_is_alnum(v[i]) {
        return None;
    }
    let n = v.len();
    let mut j: usize = i + 1;
    let mut dot = false;
    loop
        invariant
            i < j <= n == v.len(),
            run_end(v@, j as int) == run_end(v@, i + 1),
            run_has_dot(v@, i + 1) == (dot || run_has_dot(v@, j as int)),
        ensures
            run_end(v@, j as int) == j,
            !run_has_dot(v@, j as int),
        decreases n - j,
    {
        if j < n && (char_is_alnum(v[j]) || v[j] == '-') {
            j += 1;
        } else if j < n - 1 && v[j] == '.' && char_is_alnum(v[j + 1]) {
            dot = true;
            j += 2;
        } else {
            break ;
        }
    }
    if dot {
        Some(j)
    } else {
        None
    }
}

/// The first index from `i` on that holds no whitespace.
fn scan_whitespace(v: &Vec<char>, i: usize) -> (end: usize)
    requires
        i <= v.len(),
    ensures
        end == whitespace_end(v@, i as int),
        i <= end <= v.len(),
{
    let mut j: usize = i;
    while j < v.len() && char_is_whitespace(v[j])
        invariant
            i <= j <= v.len(),
            whitespace_end(v@, j as int) == whitespace_end(v@, i as int),
        decreases v.len() - j,
    {
        j += 1;
    }
    j
}

/// The characters of `v` from `lo` on, with case folded away.
fn folded_tail(v: &Vec<char>, lo: usize) -> (r: Vec<char>)
    requires
        lo <= v.len(),
    ensures
        r@ == fold_case(v@.skip(lo as int)),
{
    let mut r: Vec<char> = Vec::new();
    let mut i: usize = lo;
    while i < v.len()
        invariant
            lo <= i <= v.len(),
            r@ == fold_case(v@.subrange(lo as int, i as int)),
        decreases v.len() - i,
    {
        r.push(char_fold(v[i]));
        assert(v@.subrange(lo as int, i + 1) =~= v@.subrange(lo as int, i as int).push(v@[i as int]));
        i += 1;
    }
    assert(v@.subrange(lo as int, v.len() as int) =~= v@.skip(lo as int));
    r
}

impl DomainExtractor {
    #[verifier::type_invariant]
    spec fn holds_the_grammar(self) -> bool {
        &&& self.zero_address@ == "0.0.0.0"@
        &&& self.loopback_address@ == "127.0.0.1"@
        &&& self.rule_prefix@ == "||"@
        &&& texts(self.cosmetic@) == cosmetic_markers()
        &&& texts(self.skipped@) == skipped_modifiers()
    }

    /// The addresses that the parser holds for the start of a hosts entry.
    pub closed spec fn addresses(&self) -> Seq<Seq<char>> {
        seq![self.zero_address@, self.loopback_address@]
    }

    /// The mark that the parser holds for the start of an adblock rule.
    pub closed spec fn rule_mark(&self) -> Seq<char> {
        self.rule_prefix@
    }

    /// The marks of cosmetic filters that the parser holds.
    pub closed spec fn markers(&self) -> Seq<Seq<char>> {
        texts(self.cosmetic@)
    }

    /// The modifiers that the parser holds as those to skip a rule for.
    pub closed spec fn modifiers(&self) -> Seq<Seq<char>> {
        texts(self.skipped@)
    }

    /// A parser, ready for use: it holds the fixed words of the grammar, the
    /// two addresses of hosts entries, the mark of adblock rules, the marks
    /// of cosmetic filters and the skipped modifiers.
    pub fn new() -> (r: DomainExtractor)
        ensures
            r.addresses() == host_addresses(),
            r.rule_mark() == "||"@,
            r.markers() == cosmetic_markers(),
            r.modifiers() == skipped_modifiers(),
    {
        let mut cosmetic: Vec<Vec<char>> = Vec::new();
        cosmetic.push(to_chars("##"));
        cosmetic.push(to_chars("#@#"));
        cosmetic.push(to_chars("#?#"));
        cosmetic.push(to_chars("#$#"));
        cosmetic.push(to_chars("#+js("));
        let mut skipped: Vec<Vec<char>> = Vec::new();
        skipped.push(to_chars("third-party"));
        skipped.push(to_chars("badfilter"));
        skipped.push(to_chars("removeparam"));
        skipped.push(to_chars("redirect"));
        skipped.push(to_chars("csp"));
        skipped.push(to_chars("replace"));
        skipped.push(to_chars("cookie"));
        assert(texts(cosmetic@) =~= cosmetic_markers());
        assert(texts(skipped@) =~= skipped_modifiers());
        DomainExtractor {
            zero_address: to_chars("0.0.0.0"),
            loopback_address: to_chars("127.0.0.1"),
            rule_prefix: to_chars("||"),
            cosmetic,
            skipped,
        }
    }

    /// The domain of the hosts entry in the trimmed line `t`, as its bounds.
    fn match_hosts(&self, t: &Vec<char>) -> (r: Option<(usize, usize)>)
        ensures
            match r {
                Some((w, e)) => w <= e <= t.len() && hosts_domain(t@) == Some(
                    t@.subrange(w as int, e as int),
                ),
                None => hosts_domain(t@) is None,
            },
    {
        proof {
            use_type_invariant(self);
        }
        let a = if matches_at(t, 0, &self.zero_address) {
            self.zero_address.len()
        } else if matches_at(t, 0, &self.loopback_address) {
            self.loopback_address.len()
        } else {
            return None;
        };
        let w = scan_whitespace(t, a);
        if w == a {
            return None;
        }
        match scan_domain(t, w) {
            Some(e) => Some((w, e)),
            None => None,
        }
    }

    /// The adblock rule in the trimmed line `t`: where its domain ends and
    /// where its modifiers begin (the length of `t` where it has none).
    fn match_adblock(&self, t: &Vec<char>) -> (r: Option<(usize, usize)>)
        ensures
            match r {
                Some((e, m)) => {
                    &&& "||"@.len() <= e <= m <= t.len()
                    &&& adblock_rule(t@) == Some(
                        (t@.subrange("||"@.len() as int, e as int), t@.skip(m as int)),
                    )
                },
                None => adblock_rule(t@) is None,
            },
    {
        proof {
            use_type_invariant(self);
        }
        if !matches_at(t, 0, &self.rule_prefix) {
            return None;
        }
        let start = self.rule_prefix.len();
        let e = match scan_domain(t, start) {
            Some(e) => e,
            None => {
                return None;
            },
        };
        let m = if e < t.len() && t[e] == '^' {
            e + 1
        } else {
            e
        };
        if m == t.len() {
            assert(t@.skip(m as int) =~= Seq::<char>::empty());
            return Some((e, m));
        }
        if t[m] != '$' || m + 1 >= t.len() {
            return None;
        }
        let tail = slice_of(t, m, t.len());
        assert(tail@ =~= t@.skip(m as int));
        if find_char(&tail, '\n') != tail.len() {
            return None;
        }
        Some((e, m))
    }

    /// What one line yields: see `parse_line`.
    pub fn extract_chars(&self, line: &Vec<char>) -> (r: Option<(ExtractionResult, DetectedFormat)>)
        ensures
            match r {
                Some((result, format)) => parse_line(line@) == Some((result@, format)),
                None => parse_line(line@) is None,
            },
    {
        proof {
            use_type_invariant(self);
        }
        let t = trim_chars(line);
        if t.len() == 0 || t[0] == '#' || t[0] == '!' {
            return None;
        }
        if contains_one_of(&t, &self.cosmetic) {
            return None;
        }
        if let Some((w, e)) = self.match_hosts(&t) {
            let result = ExtractionResult {
                domain: lowercase_string_of(&t, w, e),
                raw_adblock_rule: None,
            };
            return Some((result, DetectedFormat::Hosts));
        }
        if let Some((e, m)) = self.match_adblock(&t) {
            let folded = folded_tail(&t, m);
            if contains_one_of(&folded, &self.skipped) {
                return None;
            }
            let result = ExtractionResult {
                domain: lowercase_string_of(&t, self.rule_prefix.len(), e),
                raw_adblock_rule: Some(string_of(&t, 0, t.len())),
            };
            assert(t@.subrange(0, t.len() as int) =~= t@);
            return Some((result, DetectedFormat::Adblock));
        }
        match scan_domain(&t, 0) {
            Some(e) => {
                if e == t.len() {
                    let result = ExtractionResult {
                        domain: lowercase_string_of(&t, 0, e),
                        raw_adblock_rule: None,
                    };
                    assert(t@.subrange(0, t.len() as int) =~= t@);
                    Some((result, DetectedFormat::Plain))
                } else {
                    None
                }
            },
            None => None,
        }
    }

    /// What one line yields: see `parse_line`.
    pub fn extract_domain(&self, line: &str) -> (r: Option<(ExtractionResult, DetectedFormat)>)
        ensures
            match r {
                Some((result, format)) => parse_line(line@) == Some((result@, format)),
                None => parse_line(line@) is None,
            },
    {
        let chars = to_chars(line);
        self.extract_chars(&chars)
    }

    /// The results of a text, line by line, with the count of each form.
    pub fn extract_from_content_with_breakdown(&self, content: &str) -> (out: ExtractionOutput)
        ensures
            result_views(out.results@) == parsed_results(parse_content(content@)),
            out.format_breakdown.hosts == count_format(
                parse_content(content@),
                DetectedFormat::Hosts,
            ),
            out.format_breakdown.plain == count_format(
                parse_content(content@),
                DetectedFormat::Plain,
            ),
            out.format_breakdown.adblock == count_format(
                parse_content(content@),
                DetectedFormat::Adblock,
            ),
    {
        let all = split_lines(content);
        let mut results: Vec<ExtractionResult> = Vec::new();
        let mut hosts: u64 = 0;
        let mut plain: u64 = 0;
        let mut adblock: u64 = 0;
        let mut i: usize = 0;
        while i < all.len()
            invariant
                i <= all.len(),
                result_views(results@) == parsed_results(parse_lines(texts(all@).take(i as int))),
                results.len() == parse_lines(texts(all@).take(i as int)).len(),
                hosts == count_format(
                    parse_lines(texts(all@).take(i as int)),
                    DetectedFormat::Hosts,
                ),
                plain == count_format(
                    parse_lines(texts(all@).take(i as int)),
                    DetectedFormat::Plain,
                ),
                adblock == count_format(
                    parse_lines(texts(all@).take(i as int)),
                    DetectedFormat::Adblock,
                ),
            decreases all.len() - i,
        {
            let ghost before = parse_lines(texts(all@).take(i as int));
            let ghost after = parse_lines(texts(all@).take(i + 1));
            proof {
                let p = texts(all@).take(i + 1);
                assert(p.drop_last() =~= texts(all@).take(i as int));
                assert(p.last() == all[i as int]@);
                lemma_count_format_bound(after, DetectedFormat::Hosts);
                lemma_count_format_bound(after, DetectedFormat::Plain);
                lemma_count_format_bound(after, DetectedFormat::Adblock);
            }
            match self.extract_chars(&all[i]) {
                Some((result, format)) => {
                    proof {
                        assert(after == before.push((result@, format)));
                        assert(after.drop_last() =~= before);
                        assert(after.last().1 == format);
                        assert(count_format(after, format) == count_format(before, format) + 1);
                        assert(after.len() == results.len() + 1);
                    }
                    let ghost old_views = result_views(results@);
                    results.push(result);
                    assert(result_views(results@) =~= old_views.push(result@));
                    assert(parsed_results(after) =~= parsed_results(before).push(result@));
                    assert(count_format(after, format) <= results.len() <= usize::MAX);
                    match format {
                        DetectedFormat::Hosts => {
                            hosts += 1;
                        },
                        DetectedFormat::Plain => {
                            plain += 1;
                        },
                        DetectedFormat::Adblock => {
                            adblock += 1;
                        },
                    }
                },
                None => {},
            }
            i += 1;
        }
        assert(texts(all@).take(all.len() as int) =~= texts(all@));
        ExtractionOutput { results, format_breakdown: FormatBreakdown { hosts, plain, adblock } }
    }

    /// The domains in ascending order of `str`: a permutation of the set,
    /// every domain once, none before a smaller one.
    pub fn sort_domains(domains: DomainSet) -> (sorted: Vec<String>)
        ensures
            strings(sorted@).to_set() == domains@,
            strings(sorted@).to_multiset() == domains.order().to_multiset(),
            strings(sorted@).no_duplicates(),
            sorted.len() == domains@.len(),
            is_sorted(strings(sorted@)),
            is_strictly_sorted(strings(sorted@)),
    {
        domains.into_sorted()
    }

    /// The results of a text, line by line.
    pub fn extract_from_content(&self, content: &str) -> (results: Vec<ExtractionResult>)
        ensures
            result_views(results@) == parsed_results(parse_content(content@)),
    {
        self.extract_from_content_with_breakdown(content).results
    }
}

impl Default for DomainExtractor {
    fn default() -> DomainExtractor {
        DomainExtractor::new()
    }
}

} // verus!
