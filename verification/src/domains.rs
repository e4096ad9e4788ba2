//! Sets of domains. A `DomainSet` answers membership in constant time and
//! hands its members out in the order in which they came.

use crate::text::{lex_le, lex_lt, strings};
use rayon::slice::ParallelSliceMut;
use vstd::hash_set::StringHashSet;
use vstd::prelude::*;

verus! {

/// A finite set of domains, viewed as the set of their texts.
pub struct DomainSet {
    items: Vec<String>,
    index: StringHashSet,
}

impl View for DomainSet {
    type V = Set<Seq<char>>;

    closed spec fn view(&self) -> Set<Seq<char>> {
        strings(self.items@).to_set()
    }
}

/// Whether `s` ascends in the order of `str`, equal neighbours allowed.
pub open spec fn is_sorted(s: Seq<Seq<char>>) -> bool {
    forall|i: int, j: int| 0 <= i < j < s.len() ==> lex_le(#[trigger] s[i], #[trigger] s[j])
}

/// Whether `s` ascends strictly in the order of `str`.
pub open spec fn is_strictly_sorted(s: Seq<Seq<char>>) -> bool {
    forall|i: int, j: int| 0 <= i < j < s.len() ==> lex_lt(#[trigger] s[i], #[trigger] s[j])
}

/// Sorts the strings in place, as rayon's `par_sort_unstable` does on a slice
/// of `String`: afterwards the slice holds what it held, each string as often
/// as before, in ascending order of `str`.
#[verifier::external_body]
fn par_sort_unstable(v: &mut Vec<String>)
    ensures
        strings(final(v)@).to_multiset() == strings(old(v)@).to_multiset(),
        is_sorted(strings(final(v)@)),
{
    v.par_sort_unstable()
}

/// Two lists that hold the same items equally often hold the same set, and
/// if one has no item twice then neither has the other.
pub proof fn lemma_same_multiset(a: Seq<Seq<char>>, b: Seq<Seq<char>>)
    requires
        a.to_multiset() == b.to_multiset(),
    ensures
        a.to_set() == b.to_set(),
        a.len() == b.len(),
        a.no_duplicates() ==> b.no_duplicates(),
{
    a.to_multiset_ensures();
    b.to_multiset_ensures();
    assert forall|x: Seq<char>| a.to_set().contains(x) == b.to_set().contains(x) by {
        assert(a.contains(x) <==> a.to_multiset().count(x) > 0);
        assert(b.contains(x) <==> b.to_multiset().count(x) > 0);
    }
    assert(a.to_set() =~= b.to_set());
    if a.no_duplicates() {
        a.lemma_multiset_has_no_duplicates();
        b.lemma_multiset_has_no_duplicates_conv();
    }
}

pub proof fn lemma_strings_push(v: Seq<String>, s: String)
    ensures
        strings(v.push(s)) == strings(v).push(s@),
{
    assert(strings(v.push(s)) =~= strings(v).push(s@));
}

impl DomainSet {
    #[verifier::type_invariant]
    spec fn consistent(self) -> bool {
        &&& strings(self.items@).no_duplicates()
        &&& self.index@ == strings(self.items@).to_set()
    }

    /// The members in the order in which they came.
    pub closed spec fn order(&self) -> Seq<Seq<char>> {
        strings(self.items@)
    }

    /// The empty set.
    pub fn new() -> (r: DomainSet)
        ensures
            r@ == Set::<Seq<char>>::empty(),
            r.order() == Seq::<Seq<char>>::empty(),
    {
        let items: Vec<String> = Vec::new();
        let index = StringHashSet::new();
        assert(strings(items@) =~= Seq::<Seq<char>>::empty());
        assert(strings(items@).to_set() =~= Set::<Seq<char>>::empty());
        DomainSet { items, index }
    }

    /// The number of members.
    pub fn len(&self) -> (n: usize)
        ensures
            n == self@.len(),
            n == self.order().len(),
            self@.finite(),
    {
        proof {
            use_type_invariant(self);
            strings(self.items@).unique_seq_to_set();
        }
        self.items.len()
    }

    /// Whether the set has no member.
    pub fn is_empty(&self) -> (r: bool)
        ensures
            r == (self@.len() == 0),
            r == (self@ == Set::<Seq<char>>::empty()),
    {
        proof {
            use_type_invariant(self);
            strings(self.items@).unique_seq_to_set();
            if self.items.len() == 0 {
                assert(self@ =~= Set::<Seq<char>>::empty());
            } else {
                assert(self.order().to_set().contains(self.order()[0]));
            }
        }
        self.items.len() == 0
    }

    /// Whether `domain` is a member.
    pub fn contains(&self, domain: &str) -> (r: bool)
        ensures
            r == self@.contains(domain@),
    {
        proof {
            use_type_invariant(self);
        }
        self.index.contains(domain)
    }

    /// The set with `domain` added, and whether it is new.
    fn with(self, domain: String) -> (r: (DomainSet, bool))
        ensures
            r.0@ == self@.insert(domain@),
            r.1 == !self@.contains(domain@),
            r.0.order() == if r.1 {
                self.order().push(domain@)
            } else {
                self.order()
            },
    {
        proof {
            use_type_invariant(&self);
        }
        let DomainSet { mut items, mut index } = self;
        if index.contains(domain.as_str()) {
            assert(strings(items@).to_set().insert(domain@) =~= strings(items@).to_set());
            (DomainSet { items, index }, false)
        } else {
            let ghost before = strings(items@);
            let ghost before_items = items@;
            index.insert(domain.clone());
            items.push(domain);
            proof {
                lemma_strings_push(before_items, domain);
                before.lemma_push_to_set_commute(domain@);
                assert(!before.contains(domain@));
                assert(before.push(domain@).no_duplicates());
            }
            (DomainSet { items, index }, true)
        }
    }

    /// Adds `domain`, and says whether it is new.
    pub fn insert(&mut self, domain: String) -> (added: bool)
        ensures
            final(self)@ == old(self)@.insert(domain@),
            added == !old(self)@.contains(domain@),
            final(self).order() == if added {
                old(self).order().push(domain@)
            } else {
                old(self).order()
            },
    {
        let mut taken = DomainSet::new();
        std::mem::swap(self, &mut taken);
        let (next, added) = taken.with(domain);
        *self = next;
        added
    }

    /// The members, in the order in which they came.
    pub fn items(&self) -> (r: &Vec<String>)
        ensures
            strings(r@) == self.order(),
            self.order().no_duplicates(),
            self.order().to_set() == self@,
            self.order().len() == self@.len(),
            self@.finite(),
    {
        proof {
            use_type_invariant(self);
            strings(self.items@).unique_seq_to_set();
        }
        &self.items
    }

    /// The members, in the order in which they came.
    pub fn into_vec(self) -> (r: Vec<String>)
        ensures
            strings(r@) == self.order(),
            self.order().no_duplicates(),
            self.order().to_set() == self@,
            self.order().len() == self@.len(),
            self@.finite(),
    {
        proof {
            use_type_invariant(&self);
            strings(self.items@).unique_seq_to_set();
        }
        self.items
    }

    /// The set of the strings of `v`.
    pub fn from_vec(v: Vec<String>) -> (r: DomainSet)
        ensures
            r@ == strings(v@).to_set(),
    {
        let mut r = DomainSet::new();
        let mut i: usize = 0;
        assert(strings(v@).take(0) =~= Seq::<Seq<char>>::empty());
        assert(Seq::<Seq<char>>::empty().to_set() =~= Set::<Seq<char>>::empty());
        while i < v.len()
            invariant
                i <= v.len(),
                r@ == strings(v@).take(i as int).to_set(),
            decreases v.len() - i,
        {
            proof {
                let p = strings(v@).take(i as int);
                assert(strings(v@).take(i + 1) =~= p.push(v@[i as int]@));
                p.lemma_push_to_set_commute(v@[i as int]@);
            }
            r.insert(v[i].clone());
            i += 1;
        }
        assert(strings(v@).take(v.len() as int) =~= strings(v@));
        r
    }

    /// The set of the strings of `v`, which are all different, in their order.
    pub fn from_distinct(v: Vec<String>) -> (r: DomainSet)
        requires
            strings(v@).no_duplicates(),
        ensures
            r@ == strings(v@).to_set(),
            r.order() == strings(v@),
            r@.len() == v.len(),
            r@.finite(),
    {
        proof {
            strings(v@).unique_seq_to_set();
        }
        let mut index = StringHashSet::new();
        let mut i: usize = 0;
        assert(strings(v@).take(0) =~= Seq::<Seq<char>>::empty());
        assert(Seq::<Seq<char>>::empty().to_set() =~= Set::<Seq<char>>::empty());
        while i < v.len()
            invariant
                i <= v.len(),
                index@ == strings(v@).take(i as int).to_set(),
            decreases v.len() - i,
        {
            proof {
                let p = strings(v@).take(i as int);
                assert(strings(v@).take(i + 1) =~= p.push(v@[i as int]@));
                p.lemma_push_to_set_commute(v@[i as int]@);
            }
            index.insert(v[i].clone());
            i += 1;
        }
        assert(strings(v@).take(v.len() as int) =~= strings(v@));
        DomainSet { items: v, index }
    }

    /// Adds every member of `other`.
    pub fn extend_from(&mut self, other: &DomainSet)
        ensures
            final(self)@ == old(self)@.union(other@),
    {
        let items = other.items();
        let mut i: usize = 0;
        proof {
            assert(strings(items@).take(0) =~= Seq::<Seq<char>>::empty());
            assert(old(self)@.union(Seq::<Seq<char>>::empty().to_set()) =~= old(self)@);
        }
        while i < items.len()
            invariant
                i <= items.len(),
                self@ == old(self)@.union(strings(items@).take(i as int).to_set()),
            decreases items.len() - i,
        {
            proof {
                let p = strings(items@).take(i as int);
                assert(strings(items@).take(i + 1) =~= p.push(items@[i as int]@));
                p.lemma_push_to_set_commute(items@[i as int]@);
                assert(old(self)@.union(p.to_set()).insert(items@[i as int]@) =~= old(self)@.union(
                    p.to_set().insert(items@[i as int]@),
                ));
            }
            self.insert(items[i].clone());
            i += 1;
        }
        assert(strings(items@).take(items.len() as int) =~= strings(items@));
    }

    /// The members in ascending order of `str`: every member once, and
    /// nothing else.
    pub fn into_sorted(self) -> (r: Vec<String>)
        ensures
            strings(r@).to_set() == self@,
            strings(r@).no_duplicates(),
            r.len() == self@.len(),
            is_sorted(strings(r@)),
            is_strictly_sorted(strings(r@)),
            strings(r@).to_multiset() == self.order().to_multiset(),
    {
        let mut v = self.into_vec();
        let ghost before = strings(v@);
        par_sort_unstable(&mut v);
        proof {
            lemma_same_multiset(before, strings(v@));
            let s = strings(v@);
            assert forall|i: int, j: int| 0 <= i < j < s.len() implies lex_lt(
                #[trigger] s[i],
                #[trigger] s[j],
            ) by {
                assert(lex_le(s[i], s[j]));
                assert(s[i] != s[j]);
            }
        }
        v
    }
}

} // verus!
