//! Writing a whitelist or a list of sources down and reading it again
//! gives it back. The laws of this file say so, and prove it.

use crate::downloader::{
    field, has_url, parsed_config, source_of_line, sources_of_lines, SourceView,
};
use crate::processor::{joined, pattern_texts};
use crate::text::{
    closed_lines, index_of, is_whitespace, lemma_trim_is_stable, lines, open_line, trim, trim_end,
    trim_start,
};
use crate::urls::url_parses;
use crate::whitelist::{
    classify, parse_pattern, parse_patterns, parse_whitelist, pattern_text, well_classified,
    whitelisted, PatternView,
};
use vstd::prelude::*;

verus! {

/// A text without line feed is one open line.
pub proof fn lemma_one_line(s: Seq<char>)
    requires
        !s.contains('\n'),
    ensures
        closed_lines(s) == Seq::<Seq<char>>::empty(),
        open_line(s) == s,
    decreases s.len(),
{
    if s.len() > 0 {
        let front = s.drop_last();
        assert(!front.contains('\n')) by {
            if front.contains('\n') {
                let i = choose|i: int| 0 <= i < front.len() && front[i] == '\n';
                assert(s[i] == '\n');
            }
        }
        assert(s.last() != '\n') by {
            assert(s[s.len() - 1] == s.last());
        }
        lemma_one_line(front);
        assert(front.push(s.last()) =~= s);
    } else {
        assert(open_line(s) =~= s);
    }
}

/// A line feed closes the line before it; what follows it, if it holds no
/// line feed, is the open line.
pub proof fn lemma_next_line(p: Seq<char>, s: Seq<char>)
    requires
        !s.contains('\n'),
    ensures
        closed_lines(p + seq!['\n'] + s) == closed_lines(p).push(open_line(p)),
        open_line(p + seq!['\n'] + s) == s,
    decreases s.len(),
{
    let q = p + seq!['\n'] + s;
    if s.len() == 0 {
        assert(q.drop_last() =~= p);
        assert(q.last() == '\n');
        assert(open_line(q) =~= s);
    } else {
        let front = s.drop_last();
        assert(!front.contains('\n')) by {
            if front.contains('\n') {
                let i = choose|i: int| 0 <= i < front.len() && front[i] == '\n';
                assert(s[i] == '\n');
            }
        }
        assert(s.last() != '\n') by {
            assert(s[s.len() - 1] == s.last());
        }
        lemma_next_line(p, front);
        assert(q.drop_last() =~= p + seq!['\n'] + front);
        assert(q.last() == s.last());
        assert(front.push(s.last()) =~= s);
    }
}

/// The lines of items that are written one per line are the items, where
/// no item is empty or holds a line feed.
pub proof fn lemma_lines_of_joined(items: Seq<Seq<char>>)
    requires
        forall|i: int| 0 <= i < items.len() ==> (#[trigger] items[i]).len() > 0 && !items[i].contains('\n'),
    ensures
        lines(joined(items)) == items,
        items.len() > 0 ==> closed_lines(joined(items)) == items.drop_last() && open_line(
            joined(items),
        ) == items.last(),
    decreases items.len(),
{
    if items.len() == 0 {
        assert(lines(joined(items)) =~= items);
    } else if items.len() == 1 {
        lemma_one_line(items[0]);
        assert(items.drop_last() =~= Seq::<Seq<char>>::empty());
        assert(Seq::<Seq<char>>::empty().push(items[0]) =~= items);
    } else {
        let front = items.drop_last();
        assert forall|i: int| 0 <= i < front.len() implies (#[trigger] front[i]).len() > 0
            && !front[i].contains('\n') by {
            assert(front[i] == items[i]);
        }
        lemma_lines_of_joined(front);
        lemma_next_line(joined(front), items.last());
        assert(front.drop_last().push(front.last()) =~= front);
        assert(front.push(items.last()) =~= items);
    }
}

/// No line of a text holds a line feed.
pub proof fn lemma_lines_hold_no_line_feed(s: Seq<char>)
    ensures
        !open_line(s).contains('\n'),
        forall|i: int| 0 <= i < closed_lines(s).len() ==> !(#[trigger] closed_lines(s)[i]).contains('\n'),
        forall|i: int| 0 <= i < lines(s).len() ==> !(#[trigger] lines(s)[i]).contains('\n'),
    decreases s.len(),
{
    if s.len() > 0 {
        let front = s.drop_last();
        lemma_lines_hold_no_line_feed(front);
        if s.last() == '\n' {
            assert forall|i: int| 0 <= i < closed_lines(s).len() implies !(#[trigger] closed_lines(
                s,
            )[i]).contains('\n') by {
                if i < closed_lines(front).len() {
                    assert(closed_lines(s)[i] == closed_lines(front)[i]);
                }
            }
        } else {
            let o = open_line(front);
            let grown = o.push(s.last());
            assert(!grown.contains('\n')) by {
                if grown.contains('\n') {
                    let i = choose|i: int| 0 <= i < grown.len() && grown[i] == '\n';
                    if i < o.len() {
                        assert(o[i] == '\n');
                    }
                }
            }
        }
    }
}

/// What trimming leaves of a text was in the text.
pub proof fn lemma_trim_takes_nothing_new(s: Seq<char>, c: char)
    requires
        !s.contains(c),
    ensures
        !trim(s).contains(c),
        !trim_start(s).contains(c),
        !trim_end(s).contains(c),
{
    lemma_trim_start_within(s, c);
    lemma_trim_end_within(s, c);
    lemma_trim_end_within(trim_start(s), c);
}

proof fn lemma_trim_start_within(s: Seq<char>, c: char)
    requires
        !s.contains(c),
    ensures
        !trim_start(s).contains(c),
    decreases s.len(),
{
    if s.len() > 0 && is_whitespace(s[0]) {
        let rest = s.drop_first();
        assert(!rest.contains(c)) by {
            if rest.contains(c) {
                let i = choose|i: int| 0 <= i < rest.len() && rest[i] == c;
                assert(s[i + 1] == c);
            }
        }
        lemma_trim_start_within(rest, c);
    }
}

proof fn lemma_trim_end_within(s: Seq<char>, c: char)
    requires
        !s.contains(c),
    ensures
        !trim_end(s).contains(c),
    decreases s.len(),
{
    if s.len() > 0 && is_whitespace(s.last()) {
        let rest = s.drop_last();
        assert(!rest.contains(c)) by {
            if rest.contains(c) {
                let i = choose|i: int| 0 <= i < rest.len() && rest[i] == c;
                assert(s[i] == c);
            }
        }
        lemma_trim_end_within(rest, c);
    }
}

/// The first `c` of a text is where no `c` stands before; a text without
/// `c` has it at its length.
pub proof fn lemma_index_of_bounds(s: Seq<char>, c: char)
    ensures
        0 <= index_of(s, c) <= s.len(),
        !s.take(index_of(s, c)).contains(c),
        index_of(s, c) < s.len() ==> s[index_of(s, c)] == c,
        !s.contains(c) <==> index_of(s, c) == s.len(),
    decreases s.len(),
{
    if s.len() == 0 || s[0] == c {
        assert(s.take(0) =~= Seq::<char>::empty());
        if s.len() > 0 {
            assert(s.contains(c));
        }
    } else {
        let rest = s.drop_first();
        lemma_index_of_bounds(rest, c);
        let i = index_of(rest, c);
        let t = s.take(i + 1);
        assert(!t.contains(c)) by {
            if t.contains(c) {
                let k = choose|k: int| 0 <= k < t.len() && t[k] == c;
                assert(k > 0);
                assert(rest.take(i)[k - 1] == c);
            }
        }
        if rest.contains(c) {
            let k = choose|k: int| 0 <= k < rest.len() && rest[k] == c;
            assert(s[k + 1] == c);
        }
        if s.contains(c) {
            let k = choose|k: int| 0 <= k < s.len() && s[k] == c;
            assert(rest[k - 1] == c);
        }
    }
}

/// A part of a text holds no character that the text does not hold.
pub proof fn lemma_take_takes_nothing_new(s: Seq<char>, n: int, c: char)
    requires
        0 <= n <= s.len(),
        !s.contains(c),
    ensures
        !s.take(n).contains(c),
{
    if s.take(n).contains(c) {
        let k = choose|k: int| 0 <= k < s.take(n).len() && s.take(n)[k] == c;
        assert(s[k] == c);
    }
}

/// The patterns of lines are pattern texts with their kinds.
pub proof fn lemma_parsed_patterns_are_well_classified(ls: Seq<Seq<char>>)
    requires
        forall|i: int| 0 <= i < ls.len() ==> !(#[trigger] ls[i]).contains('\n'),
    ensures
        well_classified(parse_patterns(ls)),
    decreases ls.len(),
{
    if ls.len() > 0 {
        let front = ls.drop_last();
        assert forall|i: int| 0 <= i < front.len() implies !(#[trigger] front[i]).contains('\n') by {
            assert(front[i] == ls[i]);
        }
        lemma_parsed_patterns_are_well_classified(front);
        let line = ls.last();
        assert(!line.contains('\n')) by {
            assert(ls[ls.len() - 1] == line);
        }
        let l = trim(line);
        let head = l.take(index_of(l, '#'));
        let p = pattern_text(line);
        lemma_trim_takes_nothing_new(line, '\n');
        lemma_index_of_bounds(l, '#');
        lemma_take_takes_nothing_new(l, index_of(l, '#'), '\n');
        lemma_trim_takes_nothing_new(head, '\n');
        lemma_trim_takes_nothing_new(head, '#');
        lemma_trim_is_stable(head);
        let ps = parse_patterns(ls);
        let rest = parse_patterns(front);
        assert forall|i: int| 0 <= i < ps.len() implies {
            let q = (#[trigger] ps[i]).original;
            &&& q.len() > 0
            &&& trim(q) == q
            &&& !q.contains('#')
            &&& !q.contains('\n')
            &&& ps[i].pattern_type == classify(q)
        } by {
            if i < rest.len() {
                assert(ps[i] == rest[i]);
            }
        }
    }
}

/// A pattern text reads as itself.
pub proof fn lemma_pattern_reads_as_itself(p: PatternView)
    requires
        p.original.len() > 0,
        trim(p.original) == p.original,
        !p.original.contains('#'),
        p.pattern_type == classify(p.original),
    ensures
        parse_pattern(p.original) == Some(p),
{
    let t = p.original;
    lemma_index_of_bounds(t, '#');
    assert(t.take(t.len() as int) =~= t);
}

/// Patterns that are written one per line read as themselves.
pub proof fn lemma_patterns_read_as_themselves(ps: Seq<PatternView>)
    requires
        well_classified(ps),
    ensures
        parse_patterns(pattern_texts(ps)) == ps,
    decreases ps.len(),
{
    if ps.len() > 0 {
        let front = ps.drop_last();
        assert forall|i: int| 0 <= i < front.len() implies {
            let q = (#[trigger] front[i]).original;
            &&& q.len() > 0
            &&& trim(q) == q
            &&& !q.contains('#')
            &&& !q.contains('\n')
            &&& front[i].pattern_type == classify(q)
        } by {
            assert(front[i] == ps[i]);
        }
        lemma_patterns_read_as_themselves(front);
        assert(ps[ps.len() - 1] == ps.last());
        lemma_pattern_reads_as_itself(ps.last());
        assert(pattern_texts(ps).drop_last() =~= pattern_texts(front));
        assert(pattern_texts(ps).last() == ps.last().original);
        assert(front.push(ps.last()) =~= ps);
    } else {
        assert(pattern_texts(ps) =~= Seq::<Seq<char>>::empty());
        assert(parse_patterns(pattern_texts(ps)) =~= ps);
    }
}

/// A whitelist that is written down, one pattern per line, and read again
/// is the same whitelist: it has the same patterns, and so covers the
/// same domains.
pub proof fn law_whitelist_survives_rewriting(content: Seq<char>, domain: Seq<char>)
    ensures
        parse_whitelist(joined(pattern_texts(parse_whitelist(content)))) == parse_whitelist(
            content,
        ),
        whitelisted(parse_whitelist(joined(pattern_texts(parse_whitelist(content)))), domain)
            == whitelisted(parse_whitelist(content), domain),
{
    let ps = parse_whitelist(content);
    lemma_lines_hold_no_line_feed(content);
    lemma_parsed_patterns_are_well_classified(lines(content));
    let items = pattern_texts(ps);
    assert forall|i: int| 0 <= i < items.len() implies (#[trigger] items[i]).len() > 0
        && !items[i].contains('\n') by {
        assert(items[i] == ps[i].original);
    }
    lemma_lines_of_joined(items);
    lemma_patterns_read_as_themselves(ps);
}

/// A text that can stand as a field of a configuration line: it is its own
/// trim and holds neither `|` nor a line feed.
pub open spec fn is_field(s: Seq<char>) -> bool {
    trim(s) == s && !s.contains('|') && !s.contains('\n')
}

/// A source that a configuration line can name: its URL parses and does
/// not begin with `#`, and its URL, its name and its category are fields.
pub open spec fn is_written_source(s: SourceView) -> bool {
    &&& url_parses(s.url)
    &&& is_field(s.url)
    &&& s.url.len() > 0 ==> s.url[0] != '#'
    &&& is_field(s.name)
    &&& s.category matches Some(c) ==> is_field(c)
}

/// The configuration line that names a source: its URL, its name and,
/// where it has one, its category, parted by `|`.
pub open spec fn config_line(s: SourceView) -> Seq<char> {
    s.url + seq!['|'] + s.name + match s.category {
        Some(c) => seq!['|'] + c,
        None => Seq::empty(),
    }
}

/// The configuration lines of `sources`, in their order.
pub open spec fn config_lines(sources: Seq<SourceView>) -> Seq<Seq<char>> {
    sources.map_values(|s: SourceView| config_line(s))
}

/// The configuration text that names `sources`, one per line.
pub open spec fn written_config(sources: Seq<SourceView>) -> Seq<char> {
    joined(config_lines(sources))
}

/// Whether no two of `sources` have the same URL.
pub open spec fn distinct_urls(sources: Seq<SourceView>) -> bool {
    forall|i: int, j: int|
        0 <= i < j < sources.len() ==> (#[trigger] sources[i]).url != (#[trigger] sources[j]).url
}

proof fn lemma_concat_holds(a: Seq<char>, b: Seq<char>, c: char)
    requires
        !a.contains(c),
        !b.contains(c),
    ensures
        !(a + b).contains(c),
{
    let s = a + b;
    if s.contains(c) {
        let k = choose|k: int| 0 <= k < s.len() && s[k] == c;
        if k < a.len() {
            assert(a[k] == c);
        } else {
            assert(b[k - a.len()] == c);
        }
    }
}

proof fn lemma_field_ends(s: Seq<char>)
    requires
        trim(s) == s,
        s.len() > 0,
    ensures
        !is_whitespace(s[0]),
        !is_whitespace(s.last()),
{
    lemma_trim_is_stable(s);
}

proof fn lemma_trimmed(s: Seq<char>)
    requires
        s.len() > 0,
        !is_whitespace(s[0]),
        !is_whitespace(s.last()),
    ensures
        trim(s) == s,
{
    crate::text::lemma_trim_start_is_skip(s, 0);
    assert(s.skip(0) =~= s);
    crate::text::lemma_trim_end_is_take(s, s.len() as int);
    assert(s.take(s.len() as int) =~= s);
}

/// The configuration line of a source reads as the source.
pub proof fn lemma_line_reads_as_source(s: SourceView)
    requires
        is_written_source(s),
    ensures
        source_of_line(config_line(s)) == Some(s),
        config_line(s).len() > 0,
        !config_line(s).contains('\n'),
{
    let bar = seq!['|'];
    let tail = match s.category {
        Some(c) => bar + c,
        None => Seq::<char>::empty(),
    };
    let after_url = s.name + tail;
    let line = config_line(s);
    assert(line =~= s.url + bar + after_url);
    assert('|' as u32 == 0x7C);
    assert(!is_whitespace('|'));
    // the line holds no line feed
    assert(!bar.contains('\n')) by {
        if bar.contains('\n') {
            let k = choose|k: int| 0 <= k < bar.len() && bar[k] == '\n';
        }
    }
    assert(!tail.contains('\n')) by {
        match s.category {
            Some(c) => {
                lemma_concat_holds(bar, c, '\n');
            },
            None => {
                if tail.contains('\n') {
                    let k = choose|k: int| 0 <= k < tail.len() && tail[k] == '\n';
                }
            },
        }
    }
    lemma_concat_holds(s.name, tail, '\n');
    lemma_concat_holds(s.url, bar, '\n');
    lemma_concat_holds(s.url + bar, after_url, '\n');
    // the line is its own trim
    assert(line[s.url.len() as int] == '|');
    if s.url.len() > 0 {
        lemma_field_ends(s.url);
        assert(line[0] == s.url[0]);
    }
    assert(!is_whitespace(line.last())) by {
        match s.category {
            Some(c) => {
                if c.len() > 0 {
                    lemma_field_ends(c);
                    assert(line.last() == c.last());
                } else {
                    assert(line.last() == '|');
                }
            },
            None => {
                if s.name.len() > 0 {
                    lemma_field_ends(s.name);
                    assert(line.last() == s.name.last());
                } else {
                    assert(line.last() == '|');
                }
            },
        }
    }
    lemma_trimmed(line);
    // the first field is the URL
    let i0 = s.url.len() as int;
    assert forall|j: int| 0 <= j < i0 implies line[j] != '|' by {
        assert(line[j] == s.url[j]);
        if s.url[j] == '|' {
            assert(s.url.contains('|'));
        }
    }
    crate::text::lemma_index_of(line, '|', i0);
    assert(line.take(i0) =~= s.url);
    assert(line.skip(i0 + 1) =~= after_url);
    reveal_with_fuel(field, 3);
    // the second field is the name
    let i1 = s.name.len() as int;
    assert forall|j: int| 0 <= j < i1 implies after_url[j] != '|' by {
        assert(after_url[j] == s.name[j]);
        if s.name[j] == '|' {
            assert(s.name.contains('|'));
        }
    }
    match s.category {
        Some(c) => {
            assert(after_url[i1] == '|');
            crate::text::lemma_index_of(after_url, '|', i1);
            assert(after_url.take(i1) =~= s.name);
            assert(after_url.skip(i1 + 1) =~= c);
            lemma_index_of_bounds(c, '|');
            assert(c.take(c.len() as int) =~= c);
            assert(field(line, 2) == Some(c));
        },
        None => {
            assert(after_url =~= s.name);
            crate::text::lemma_index_of(after_url, '|', i1);
            assert(after_url.take(i1) =~= s.name);
            assert(field(line, 2) is None);
        },
    }
    assert(field(line, 0) == Some(s.url));
    assert(field(line, 1) == Some(s.name));
    assert(source_of_line(line) == Some(s)) by {
        let t = trim(line);
        assert(t == line);
        if s.url.len() > 0 {
            assert(t[0] == s.url[0]);
        } else {
            assert(t[0] == '|');
            assert('#' as u32 == 0x23);
        }
    }
}

/// The configuration lines of sources with distinct URLs read as the sources.
pub proof fn lemma_lines_read_as_sources(sources: Seq<SourceView>)
    requires
        forall|i: int| 0 <= i < sources.len() ==> is_written_source(#[trigger] sources[i]),
        distinct_urls(sources),
    ensures
        sources_of_lines(config_lines(sources)) == sources,
    decreases sources.len(),
{
    if sources.len() > 0 {
        let front = sources.drop_last();
        assert forall|i: int| 0 <= i < front.len() implies is_written_source(#[trigger] front[i]) by {
            assert(front[i] == sources[i]);
        }
        assert(distinct_urls(front)) by {
            assert forall|i: int, j: int| 0 <= i < j < front.len() implies (#[trigger] front[i]).url
                != (#[trigger] front[j]).url by {
                assert(front[i] == sources[i] && front[j] == sources[j]);
            }
        }
        lemma_lines_read_as_sources(front);
        let last = sources.last();
        assert(sources[sources.len() - 1] == last);
        lemma_line_reads_as_source(last);
        assert(config_lines(sources).drop_last() =~= config_lines(front));
        assert(config_lines(sources).last() == config_line(last));
        assert(!has_url(front, last.url)) by {
            if has_url(front, last.url) {
                let k = choose|k: int| 0 <= k < front.len() && (#[trigger] front[k]).url == last.url;
                assert(sources[k].url == sources[sources.len() - 1].url);
            }
        }
        assert(front.push(last) =~= sources);
    } else {
        assert(config_lines(sources) =~= Seq::<Seq<char>>::empty());
        assert(sources_of_lines(config_lines(sources)) =~= sources);
    }
}

/// Sources that are written down, one per line, and read again are the
/// same sources, as long as no two of them have the same URL.
pub proof fn law_sources_survive_rewriting(sources: Seq<SourceView>)
    requires
        forall|i: int| 0 <= i < sources.len() ==> is_written_source(#[trigger] sources[i]),
        distinct_urls(sources),
    ensures
        parsed_config(written_config(sources)) == sources,
{
    let items = config_lines(sources);
    assert forall|i: int| 0 <= i < items.len() implies (#[trigger] items[i]).len() > 0
        && !items[i].contains('\n') by {
        assert(items[i] == config_line(sources[i]));
        lemma_line_reads_as_source(sources[i]);
    }
    lemma_lines_of_joined(items);
    lemma_lines_read_as_sources(sources);
}

} // verus!
