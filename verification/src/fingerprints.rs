//! What the fingerprint of a configuration does not depend on: comment
//! lines, the order of the sources, and the spelling of a source as far as
//! its canonical line hides it.

use crate::downloader::{parsed_config, source_of_line, sources_of_lines, SourceView};
use crate::processor::{
    canonical_config, canonical_source, canonical_sources, config_fingerprint_of, joined,
    lemma_url_position_bounds, pattern_texts, sorted_by_url, url_position,
    without_trailing_slashes,
};
use crate::round_trips::distinct_urls;
use crate::text::{lex_lt, lines, unicode_lowercase};
use crate::whitelist::{parse_pattern, parse_patterns, parse_whitelist, PatternView};
use vstd::prelude::*;

verus! {

/// Whether `sources` ascend strictly by URL.
pub open spec fn ascends_by_url(sources: Seq<SourceView>) -> bool {
    forall|i: int, j: int|
        0 <= i < j < sources.len() ==> lex_lt((#[trigger] sources[i]).url, (#[trigger] sources[j]).url)
}

/// No text comes before itself.
pub proof fn lemma_lex_irreflexive(a: Seq<char>)
    ensures
        !lex_lt(a, a),
    decreases a.len(),
{
    if a.len() > 0 {
        lemma_lex_irreflexive(a.drop_first());
    }
}

/// Of two different texts one comes before the other.
pub proof fn lemma_lex_total(a: Seq<char>, b: Seq<char>)
    requires
        a != b,
    ensures
        lex_lt(a, b) || lex_lt(b, a),
    decreases a.len(),
{
    if a.len() > 0 && b.len() > 0 {
        if a[0] == b[0] {
            assert(a.drop_first() != b.drop_first()) by {
                if a.drop_first() == b.drop_first() {
                    assert(a =~= seq![a[0]] + a.drop_first());
                    assert(b =~= seq![b[0]] + b.drop_first());
                }
            }
            lemma_lex_total(a.drop_first(), b.drop_first());
        }
    } else if a.len() == 0 && b.len() == 0 {
        assert(a =~= b);
    }
}

/// What comes before a text that comes before another comes before that.
pub proof fn lemma_lex_transitive(a: Seq<char>, b: Seq<char>, c: Seq<char>)
    requires
        lex_lt(a, b),
        lex_lt(b, c),
    ensures
        lex_lt(a, c),
    decreases a.len(),
{
    if a.len() > 0 {
        if a[0] == b[0] && b[0] == c[0] {
            lemma_lex_transitive(a.drop_first(), b.drop_first(), c.drop_first());
        }
    }
}

/// Where a source with the URL `url` goes in a list that ascends by URL
/// and does not have that URL: behind the URLs that come before it, and
/// before those that come after it.
pub proof fn lemma_url_position(sorted: Seq<SourceView>, url: Seq<char>)
    requires
        ascends_by_url(sorted),
        forall|i: int| 0 <= i < sorted.len() ==> (#[trigger] sorted[i]).url != url,
    ensures
        ({
            let k = url_position(sorted, url);
            &&& 0 <= k <= sorted.len()
            &&& forall|i: int| 0 <= i < k ==> lex_lt((#[trigger] sorted[i]).url, url)
            &&& forall|i: int| k <= i < sorted.len() ==> lex_lt(url, (#[trigger] sorted[i]).url)
        }),
    decreases sorted.len(),
{
    lemma_url_position_bounds(sorted, url);
    if sorted.len() > 0 {
        let rest = sorted.drop_first();
        assert(ascends_by_url(rest)) by {
            assert forall|i: int, j: int| 0 <= i < j < rest.len() implies lex_lt(
                (#[trigger] rest[i]).url,
                (#[trigger] rest[j]).url,
            ) by {
                assert(rest[i] == sorted[i + 1] && rest[j] == sorted[j + 1]);
            }
        }
        assert forall|i: int| 0 <= i < rest.len() implies (#[trigger] rest[i]).url != url by {
            assert(rest[i] == sorted[i + 1]);
        }
        if !lex_lt(url, sorted[0].url) {
            lemma_url_position(rest, url);
            lemma_lex_total(url, sorted[0].url);
            let k = url_position(sorted, url);
            assert forall|i: int| 0 <= i < k implies lex_lt((#[trigger] sorted[i]).url, url) by {
                if i > 0 {
                    assert(rest[i - 1] == sorted[i]);
                }
            }
            assert forall|i: int| k <= i < sorted.len() implies lex_lt(
                url,
                (#[trigger] sorted[i]).url,
            ) by {
                assert(rest[i - 1] == sorted[i]);
            }
        } else {
            assert forall|i: int| 0 <= i < sorted.len() implies lex_lt(
                url,
                (#[trigger] sorted[i]).url,
            ) by {
                if i > 0 {
                    lemma_lex_transitive(url, sorted[0].url, sorted[i].url);
                }
            }
        }
    }
}

/// A list that ascends by URL still does with one more source at its place.
pub proof fn lemma_insert_ascends(rest: Seq<SourceView>, item: SourceView)
    requires
        ascends_by_url(rest),
        forall|i: int| 0 <= i < rest.len() ==> (#[trigger] rest[i]).url != item.url,
    ensures
        ascends_by_url(rest.insert(url_position(rest, item.url), item)),
{
    lemma_url_position(rest, item.url);
    let k = url_position(rest, item.url);
    let out = rest.insert(k, item);
    assert forall|i: int, j: int| 0 <= i < j < out.len() implies lex_lt(
        (#[trigger] out[i]).url,
        (#[trigger] out[j]).url,
    ) by {
        if j < k {
            assert(out[i] == rest[i] && out[j] == rest[j]);
        } else if j == k {
            assert(out[i] == rest[i]);
        } else if i < k {
            assert(out[i] == rest[i] && out[j] == rest[j - 1]);
        } else if i == k {
            assert(out[j] == rest[j - 1]);
        } else {
            assert(out[i] == rest[i - 1] && out[j] == rest[j - 1]);
        }
    }
}

/// A list with one more source holds that source and what it held.
pub proof fn lemma_insert_holds(rest: Seq<SourceView>, k: int, item: SourceView, s: SourceView)
    requires
        0 <= k <= rest.len(),
    ensures
        rest.insert(k, item).contains(s) <==> rest.contains(s) || s == item,
{
    let out = rest.insert(k, item);
    if out.contains(s) {
        let i = choose|i: int| 0 <= i < out.len() && out[i] == s;
        if i < k {
            assert(rest[i] == s);
        } else if i > k {
            assert(rest[i - 1] == s);
        }
    }
    if rest.contains(s) {
        let i = choose|i: int| 0 <= i < rest.len() && rest[i] == s;
        if i < k {
            assert(out[i] == s);
        } else {
            assert(out[i + 1] == s);
        }
    }
    if s == item {
        assert(out[k] == s);
    }
}

/// A list holds its last source and what stands before it.
pub proof fn lemma_last_holds(sources: Seq<SourceView>, s: SourceView)
    requires
        sources.len() > 0,
    ensures
        sources.contains(s) <==> sources.drop_last().contains(s) || s == sources.last(),
{
    let front = sources.drop_last();
    if sources.contains(s) {
        let i = choose|i: int| 0 <= i < sources.len() && sources[i] == s;
        if i < front.len() {
            assert(front[i] == s);
        }
    }
    if front.contains(s) {
        let i = choose|i: int| 0 <= i < front.len() && front[i] == s;
        assert(sources[i] == s);
    }
    if s == sources.last() {
        assert(sources[sources.len() - 1] == s);
    }
}

/// Sources with distinct URLs, sorted by URL, ascend strictly and are the
/// same sources.
pub proof fn lemma_sorted_by_url(sources: Seq<SourceView>)
    requires
        distinct_urls(sources),
    ensures
        ascends_by_url(sorted_by_url(sources)),
        forall|s: SourceView| sorted_by_url(sources).contains(s) <==> sources.contains(s),
    decreases sources.len(),
{
    if sources.len() > 0 {
        let front = sources.drop_last();
        let last = sources.last();
        assert(distinct_urls(front)) by {
            assert forall|i: int, j: int| 0 <= i < j < front.len() implies (#[trigger] front[i]).url
                != (#[trigger] front[j]).url by {
                assert(front[i] == sources[i] && front[j] == sources[j]);
            }
        }
        lemma_sorted_by_url(front);
        let rest = sorted_by_url(front);
        assert forall|i: int| 0 <= i < rest.len() implies (#[trigger] rest[i]).url != last.url by {
            assert(rest.contains(rest[i]));
            assert(front.contains(rest[i]));
            let k = choose|k: int| 0 <= k < front.len() && front[k] == rest[i];
            assert(sources[k].url != sources[sources.len() - 1].url);
        }
        lemma_insert_ascends(rest, last);
        lemma_url_position_bounds(rest, last.url);
        let k = url_position(rest, last.url);
        assert forall|s: SourceView| sorted_by_url(sources).contains(s) <==> sources.contains(
            s,
        ) by {
            lemma_insert_holds(rest, k, last, s);
            lemma_last_holds(sources, s);
        }
    }
}

/// Two lists that ascend strictly by URL and hold the same sources are
/// the same list.
pub proof fn lemma_ascending_lists_are_equal(x: Seq<SourceView>, y: Seq<SourceView>)
    requires
        ascends_by_url(x),
        ascends_by_url(y),
        forall|s: SourceView| x.contains(s) <==> y.contains(s),
    ensures
        x == y,
    decreases x.len(),
{
    if x.len() == 0 {
        if y.len() > 0 {
            assert(y.contains(y[0]));
        }
        assert(x =~= y);
    } else {
        assert(x.contains(x.last())) by {
            assert(x[x.len() - 1] == x.last());
        }
        assert(y.contains(x.last()));
        assert(y.len() > 0);
        assert(y.contains(y.last())) by {
            assert(y[y.len() - 1] == y.last());
        }
        let k = choose|k: int| 0 <= k < y.len() && y[k] == x.last();
        let m = choose|m: int| 0 <= m < x.len() && x[m] == y.last();
        assert(x.last() == y.last()) by {
            if k < y.len() - 1 {
                assert(lex_lt(y[k].url, y[y.len() - 1].url));
                if m < x.len() - 1 {
                    assert(lex_lt(x[m].url, x[x.len() - 1].url));
                    lemma_lex_transitive(x.last().url, y.last().url, x.last().url);
                    lemma_lex_irreflexive(x.last().url);
                } else {
                    lemma_lex_irreflexive(x.last().url);
                }
            }
        }
        let xf = x.drop_last();
        let yf = y.drop_last();
        assert(ascends_by_url(xf)) by {
            assert forall|i: int, j: int| 0 <= i < j < xf.len() implies lex_lt(
                (#[trigger] xf[i]).url,
                (#[trigger] xf[j]).url,
            ) by {
                assert(xf[i] == x[i] && xf[j] == x[j]);
            }
        }
        assert(ascends_by_url(yf)) by {
            assert forall|i: int, j: int| 0 <= i < j < yf.len() implies lex_lt(
                (#[trigger] yf[i]).url,
                (#[trigger] yf[j]).url,
            ) by {
                assert(yf[i] == y[i] && yf[j] == y[j]);
            }
        }
        assert forall|s: SourceView| xf.contains(s) <==> yf.contains(s) by {
            if xf.contains(s) {
                let i = choose|i: int| 0 <= i < xf.len() && xf[i] == s;
                assert(x[i] == s);
                assert(lex_lt(x[i].url, x[x.len() - 1].url));
                assert(y.contains(s));
                let j = choose|j: int| 0 <= j < y.len() && y[j] == s;
                if j == y.len() - 1 {
                    lemma_lex_irreflexive(s.url);
                }
                assert(yf[j] == s);
            }
            if yf.contains(s) {
                let i = choose|i: int| 0 <= i < yf.len() && yf[i] == s;
                assert(y[i] == s);
                assert(lex_lt(y[i].url, y[y.len() - 1].url));
                assert(x.contains(s));
                let j = choose|j: int| 0 <= j < x.len() && x[j] == s;
                if j == x.len() - 1 {
                    lemma_lex_irreflexive(s.url);
                }
                assert(xf[j] == s);
            }
        }
        lemma_ascending_lists_are_equal(xf, yf);
        assert(x =~= xf.push(x.last()));
        assert(y =~= yf.push(y.last()));
    }
}

/// The order of the sources does not count: two lists of the same
/// sources, none with the URL of another, have the same canonical form.
pub proof fn law_order_of_sources_does_not_count(
    a: Seq<SourceView>,
    b: Seq<SourceView>,
    patterns: Seq<PatternView>,
)
    requires
        distinct_urls(a),
        distinct_urls(b),
        forall|s: SourceView| a.contains(s) <==> b.contains(s),
    ensures
        sorted_by_url(a) == sorted_by_url(b),
        canonical_config(a, patterns) == canonical_config(b, patterns),
{
    lemma_sorted_by_url(a);
    lemma_sorted_by_url(b);
    assert forall|s: SourceView| sorted_by_url(a).contains(s) <==> sorted_by_url(b).contains(s) by {
        assert(sorted_by_url(a).contains(s) <==> a.contains(s));
        assert(sorted_by_url(b).contains(s) <==> b.contains(s));
    }
    lemma_ascending_lists_are_equal(sorted_by_url(a), sorted_by_url(b));
}

/// A line that names no source does not count: with or without it, the
/// lines name the same sources.
pub proof fn lemma_idle_line(ls: Seq<Seq<char>>, i: int, idle: Seq<char>)
    requires
        0 <= i <= ls.len(),
        source_of_line(idle) is None,
    ensures
        sources_of_lines(ls.insert(i, idle)) == sources_of_lines(ls),
    decreases ls.len() - i,
{
    let with = ls.insert(i, idle);
    if i == ls.len() {
        assert(with.drop_last() =~= ls);
        assert(with.last() == idle);
    } else {
        lemma_idle_line(ls.drop_last(), i, idle);
        assert(with.drop_last() =~= ls.drop_last().insert(i, idle));
        assert(with.last() == ls.last());
    }
}

/// A line that holds no pattern does not count: with or without it, the
/// lines hold the same patterns.
pub proof fn lemma_idle_pattern_line(ls: Seq<Seq<char>>, i: int, idle: Seq<char>)
    requires
        0 <= i <= ls.len(),
        parse_pattern(idle) is None,
    ensures
        parse_patterns(ls.insert(i, idle)) == parse_patterns(ls),
    decreases ls.len() - i,
{
    let with = ls.insert(i, idle);
    if i == ls.len() {
        assert(with.drop_last() =~= ls);
        assert(with.last() == idle);
    } else {
        lemma_idle_pattern_line(ls.drop_last(), i, idle);
        assert(with.drop_last() =~= ls.drop_last().insert(i, idle));
        assert(with.last() == ls.last());
    }
}

/// Comments do not count: a configuration whose texts have one more line
/// that names no source, or holds no pattern, has the same fingerprint.
pub proof fn law_comments_do_not_count(
    blocklists: Seq<char>,
    with_comment: Seq<char>,
    whitelist: Seq<char>,
    whitelist_with_comment: Seq<char>,
    i: int,
    j: int,
    idle: Seq<char>,
    idle_pattern: Seq<char>,
)
    requires
        0 <= i <= lines(blocklists).len(),
        0 <= j <= lines(whitelist).len(),
        source_of_line(idle) is None,
        parse_pattern(idle_pattern) is None,
        lines(with_comment) == lines(blocklists).insert(i, idle),
        lines(whitelist_with_comment) == lines(whitelist).insert(j, idle_pattern),
    ensures
        config_fingerprint_of(with_comment, whitelist_with_comment) == config_fingerprint_of(
            blocklists,
            whitelist,
        ),
{
    lemma_idle_line(lines(blocklists), i, idle);
    lemma_idle_pattern_line(lines(whitelist), j, idle_pattern);
}

/// A slash at the end of a text is one of the slashes that it ends with.
pub proof fn law_one_more_slash_does_not_count(s: Seq<char>)
    ensures
        without_trailing_slashes(s.push('/')) == without_trailing_slashes(s),
{
    assert(s.push('/').drop_last() =~= s);
}

/// The spelling of a source does not count as far as its canonical line
/// hides it: two lists in ascending order of their URLs whose sources,
/// one by one, agree in lower case, up to the slashes that their URLs end
/// with, have the same canonical form.
pub proof fn law_spelling_does_not_count(
    a: Seq<SourceView>,
    b: Seq<SourceView>,
    patterns: Seq<PatternView>,
)
    requires
        a.len() == b.len(),
        sorted_by_url(a) == a,
        sorted_by_url(b) == b,
        forall|i: int|
            0 <= i < a.len() ==> {
                &&& without_trailing_slashes(unicode_lowercase((#[trigger] a[i]).url))
                    == without_trailing_slashes(unicode_lowercase(b[i].url))
                &&& unicode_lowercase(a[i].name) == unicode_lowercase(b[i].name)
                &&& unicode_lowercase(
                    match a[i].category {
                        Some(c) => c,
                        None => Seq::empty(),
                    },
                ) == unicode_lowercase(
                    match b[i].category {
                        Some(c) => c,
                        None => Seq::empty(),
                    },
                )
            },
    ensures
        canonical_config(a, patterns) == canonical_config(b, patterns),
{
    assert(canonical_sources(a) =~= canonical_sources(b));
}

} // verus!
