//! The report on the patterns of a whitelist depends on the set of the
//! domains that were removed, not on the order in which they are taken.

use crate::db::progress::PatternMatchView;
use crate::whitelist::{
    is_listed, kept_domains, lemma_filter_splits, match_count, pattern_matches, ranked,
    removed_domains, tally, top_matches, whitelisted, PatternView, MAX_REPORTED_PATTERNS,
};
use vstd::prelude::*;

verus! {

/// How many of `s` the single pattern `p` matches.
pub open spec fn matched_in(p: PatternView, s: Set<Seq<char>>) -> nat {
    s.filter(|d: Seq<char>| pattern_matches(p, d)).len()
}

/// The domains of `all` that the whitelist made of `ps` covers.
pub open spec fn removed_set(ps: Seq<PatternView>, all: Set<Seq<char>>) -> Set<Seq<char>> {
    all.filter(|d: Seq<char>| whitelisted(ps, d))
}

/// The patterns of `ps` that match at least one of `removed`, each with
/// the number it matches, in the order of `ps`; a pattern text that is
/// written more than once is listed once.
pub open spec fn tally_of(ps: Seq<PatternView>, removed: Set<Seq<char>>) -> Seq<PatternMatchView>
    decreases ps.len(),
{
    if ps.len() == 0 {
        Seq::empty()
    } else {
        let rest = tally_of(ps.drop_last(), removed);
        let p = ps.last();
        let n = matched_in(p, removed);
        if n > 0 && !is_listed(rest, p.original) {
            rest.push(
                PatternMatchView {
                    pattern: p.original,
                    pattern_type: p.pattern_type.name(),
                    match_count: n,
                    samples: Seq::empty(),
                },
            )
        } else {
            rest
        }
    }
}

/// The report on the patterns of `ps`, given the set of the domains that
/// were removed: the tally in descending order of matches, cut after
/// twenty entries.
pub open spec fn report_of(ps: Seq<PatternView>, removed: Set<Seq<char>>) -> Seq<PatternMatchView> {
    let r = ranked(tally_of(ps, removed));
    if r.len() > MAX_REPORTED_PATTERNS {
        r.take(MAX_REPORTED_PATTERNS as int)
    } else {
        r
    }
}

/// A pattern matches as many of a list without repetition as of its set.
pub proof fn lemma_match_count_of_set(p: PatternView, r: Seq<Seq<char>>)
    requires
        r.no_duplicates(),
    ensures
        match_count(p, r) == matched_in(p, r.to_set()),
    decreases r.len(),
{
    let f = |d: Seq<char>| pattern_matches(p, d);
    vstd::seq_lib::seq_to_set_is_finite(r);
    if r.len() == 0 {
        assert(r.to_set() =~= Set::<Seq<char>>::empty());
        assert(r.to_set().filter(f) =~= Set::<Seq<char>>::empty());
    } else {
        let front = r.drop_last();
        let last = r.last();
        assert(front.no_duplicates());
        lemma_match_count_of_set(p, front);
        vstd::seq_lib::seq_to_set_is_finite(front);
        assert(r =~= front.push(last));
        front.lemma_push_to_set_commute(last);
        assert(!front.to_set().contains(last)) by {
            if front.contains(last) {
                let i = choose|i: int| 0 <= i < front.len() && front[i] == last;
                assert(r[i] == r[r.len() - 1]);
            }
        }
        let before = front.to_set().filter(f);
        front.to_set().lemma_len_filter(f);
        vstd::set_lib::lemma_set_subset_finite(front.to_set(), before);
        if pattern_matches(p, last) {
            assert(r.to_set().filter(f) =~= before.insert(last));
            vstd::set::axiom_set_insert_len(before, last);
        } else {
            assert(r.to_set().filter(f) =~= before);
        }
    }
}

/// The tally over a list without repetition is the tally over its set.
pub proof fn lemma_tally_of_set(ps: Seq<PatternView>, r: Seq<Seq<char>>)
    requires
        r.no_duplicates(),
    ensures
        tally(ps, r) == tally_of(ps, r.to_set()),
    decreases ps.len(),
{
    if ps.len() > 0 {
        lemma_tally_of_set(ps.drop_last(), r);
        lemma_match_count_of_set(ps.last(), r);
    }
}

/// The report on the patterns depends on which domains were removed, not
/// on their order: however the domains of a set are listed, the report
/// over those that the whitelist covers is the same.
pub proof fn law_report_ignores_order(ps: Seq<PatternView>, order: Seq<Seq<char>>)
    requires
        order.no_duplicates(),
    ensures
        removed_domains(ps, order).to_set() == removed_set(ps, order.to_set()),
        top_matches(ps, removed_domains(ps, order)) == report_of(
            ps,
            removed_set(ps, order.to_set()),
        ),
{
    lemma_filter_splits(ps, order);
    let removed = removed_domains(ps, order);
    assert(removed.to_set() =~= removed_set(ps, order.to_set()));
    lemma_tally_of_set(ps, removed);
}

} // verus!
