//! A flattened keyword-to-route mapping. It is stored as a vector of
//! entries with pairwise-distinct keywords and viewed, for specification
//! purposes, as a map from keyword characters to routes.

use crate::config::Route;
use crate::config::RouteGroup;
use vstd::map::*;
use vstd::prelude::*;

verus! {

/// The map described by an entry list: entries later in the list win, though
/// a well-formed index never holds two entries with the same keyword.
pub open spec fn assoc_map(es: Seq<(String, Route)>) -> Map<Seq<char>, Route>
    decreases es.len(),
{
    if es.len() == 0 {
        Map::empty()
    } else {
        assoc_map(es.drop_last()).insert(es.last().0@, es.last().1)
    }
}

/// No two entries share a keyword.
pub open spec fn unique_keys(es: Seq<(String, Route)>) -> bool {
    forall|i: int, j: int|
        0 <= i < j < es.len() ==> (#[trigger] es[i]).0@ != (#[trigger] es[j]).0@
}

/// A keyword that no entry carries is absent from the map.
proof fn lemma_assoc_absent(es: Seq<(String, Route)>, k: Seq<char>)
    requires
        forall|j: int| 0 <= j < es.len() ==> (#[trigger] es[j]).0@ != k,
    ensures
        !assoc_map(es).contains_key(k),
    decreases es.len(),
{
    if es.len() > 0 {
        assert(forall|j: int|
            0 <= j < es.drop_last().len() ==> (#[trigger] es.drop_last()[j]).0@ != k);
        lemma_assoc_absent(es.drop_last(), k);
    }
}

/// The value of a keyword is the value of its last entry.
proof fn lemma_assoc_last_match(es: Seq<(String, Route)>, i: int, k: Seq<char>)
    requires
        0 <= i < es.len(),
        es[i].0@ == k,
        forall|j: int| i < j < es.len() ==> (#[trigger] es[j]).0@ != k,
    ensures
        assoc_map(es).contains_key(k),
        assoc_map(es)[k] == es[i].1,
    decreases es.len(),
{
    if i == es.len() - 1 {
    } else {
        assert(es.drop_last()[i] == es[i]);
        assert(forall|j: int|
            i < j < es.drop_last().len() ==> (#[trigger] es.drop_last()[j]).0@ != k);
        lemma_assoc_last_match(es.drop_last(), i, k);
        assert(es.last().0@ != k);
    }
}

/// Inserting at two distinct keys commutes.
proof fn lemma_insert_commute(
    m: Map<Seq<char>, Route>,
    k1: Seq<char>,
    v1: Route,
    k2: Seq<char>,
    v2: Route,
)
    requires
        k1 != k2,
    ensures
        m.insert(k1, v1).insert(k2, v2) == m.insert(k2, v2).insert(k1, v1),
{
    assert_maps_equal!(m.insert(k1, v1).insert(k2, v2), m.insert(k2, v2).insert(k1, v1));
}

/// Inserting at a key twice keeps only the later value.
proof fn lemma_insert_overwrite(m: Map<Seq<char>, Route>, k: Seq<char>, v1: Route, v2: Route)
    ensures
        m.insert(k, v1).insert(k, v2) == m.insert(k, v2),
{
    assert_maps_equal!(m.insert(k, v1).insert(k, v2), m.insert(k, v2));
}

/// Removing an entry and then inserting its keyword lands in the same map
/// as inserting without the removal.
proof fn lemma_assoc_remove_insert(es: Seq<(String, Route)>, i: int, v: Route)
    requires
        unique_keys(es),
        0 <= i < es.len(),
    ensures
        assoc_map(es.remove(i)).insert(es[i].0@, v) == assoc_map(es).insert(es[i].0@, v),
    decreases es.len(),
{
    let k = es[i].0@;
    if i == es.len() - 1 {
        assert(es.remove(i) =~= es.drop_last());
        lemma_insert_overwrite(assoc_map(es.drop_last()), k, es[i].1, v);
    } else {
        let l = es.last();
        assert(es.remove(i).drop_last() =~= es.drop_last().remove(i));
        assert(es.remove(i).last() == l);
        assert(es.drop_last()[i] == es[i]);
        assert(forall|a: int, b: int|
            0 <= a < b < es.drop_last().len() ==> (#[trigger] es.drop_last()[a]).0@ != (
            #[trigger] es.drop_last()[b]).0@);
        lemma_assoc_remove_insert(es.drop_last(), i, v);
        assert(l.0@ != k);
        lemma_insert_commute(assoc_map(es.drop_last().remove(i)), l.0@, l.1, k, v);
        lemma_insert_commute(assoc_map(es.drop_last()), l.0@, l.1, k, v);
    }
}

/// With pairwise-distinct keywords, the map has exactly one key per entry.
proof fn lemma_assoc_dom_len(es: Seq<(String, Route)>)
    requires
        unique_keys(es),
    ensures
        assoc_map(es).dom().finite(),
        assoc_map(es).dom().len() == es.len(),
    decreases es.len(),
{
    if es.len() > 0 {
        assert(forall|a: int, b: int|
            0 <= a < b < es.drop_last().len() ==> (#[trigger] es.drop_last()[a]).0@ != (
            #[trigger] es.drop_last()[b]).0@);
        lemma_assoc_dom_len(es.drop_last());
        assert(forall|j: int|
            0 <= j < es.drop_last().len() ==> (#[trigger] es.drop_last()[j]).0@ != es.last().0@);
        lemma_assoc_absent(es.drop_last(), es.last().0@);
        assert(assoc_map(es).dom() =~= assoc_map(es.drop_last()).dom().insert(es.last().0@));
    }
}

/// A flattened mapping of keywords to routes.
#[derive(Debug)]
pub struct RouteIndex {
    pub(crate) entries: Vec<(String, Route)>,
}

impl Clone for RouteIndex {
    fn clone(&self) -> (r: RouteIndex)
        ensures
            r@ == self@,
    {
        proof {
            use_type_invariant(&*self);
        }
        let n = self.entries.len();
        let mut entries: Vec<(String, Route)> = Vec::new();
        let mut i: usize = 0;
        while i < n
            invariant
                0 <= i <= n,
                n == self.entries@.len(),
                entries@ =~= self.entries@.subrange(0, i as int),
                unique_keys(self.entries@),
            decreases n - i,
        {
            let entry = &self.entries[i];
            entries.push((entry.0.clone(), entry.1.clone()));
            i += 1;
        }
        proof {
            assert(entries@ =~= self.entries@);
        }
        RouteIndex { entries }
    }
}

impl View for RouteIndex {
    type V = Map<Seq<char>, Route>;

    closed spec fn view(&self) -> Map<Seq<char>, Route> {
        assoc_map(self.entries@)
    }
}

impl RouteIndex {
    #[verifier::type_invariant]
    pub(crate) open spec fn wf(self) -> bool {
        unique_keys(self.entries@)
    }

    /// An empty index.
    pub fn new() -> (r: RouteIndex)
        ensures
            r@ == Map::<Seq<char>, Route>::empty(),
    {
        RouteIndex { entries: Vec::new() }
    }

    /// Maps `keyword` to `route`, replacing any earlier route under the same
    /// keyword.
    pub fn insert(&mut self, keyword: String, route: Route)
        ensures
            final(self)@ == old(self)@.insert(keyword@, route),
    {
        proof {
            use_type_invariant(&*self);
        }
        let mut entries: Vec<(String, Route)> = Vec::new();
        core::mem::swap(&mut entries, &mut self.entries);
        let ghost es = entries@;
        let n = entries.len();
        let mut i: usize = 0;
        let mut found: Option<usize> = None;
        while i < n
            invariant
                entries@ == es,
                n == es.len(),
                0 <= i <= n,
                match found {
                    Some(f) => f < i && es[f as int].0@ == keyword@,
                    None => forall|j: int| 0 <= j < i ==> (#[trigger] es[j]).0@ != keyword@,
                },
            decreases n - i,
        {
            if found.is_none() && entries[i].0 == keyword {
                found = Some(i);
            }
            i += 1;
        }
        match found {
            Some(f) => {
                proof {
                    lemma_assoc_remove_insert(es, f as int, route);
                }
                entries.remove(f);
                entries.push((keyword, route));
                proof {
                    assert(entries@.drop_last() =~= es.remove(f as int));
                    assert(unique_keys(es.remove(f as int))) by {
                        assert(forall|a: int, b: int|
                            0 <= a < b < es.remove(f as int).len() ==> (#[trigger] es.remove(
                                f as int,
                            )[a]).0@ != (#[trigger] es.remove(f as int)[b]).0@);
                    }
                    assert(forall|j: int|
                        0 <= j < es.remove(f as int).len() ==> (#[trigger] es.remove(f as int)[j]).0
                            != entries@.last().0) by {
                        assert(forall|j: int|
                            0 <= j < es.len() && j != f ==> (#[trigger] es[j]).0@ != keyword@);
                    }
                    assert(unique_keys(entries@));
                }
            },
            None => {
                entries.push((keyword, route));
                proof {
                    assert(entries@.drop_last() =~= es);
                    assert(unique_keys(entries@));
                }
            },
        }
        self.entries = entries;
    }

    /// Looks a keyword up.
    pub fn get<'a>(&'a self, keyword: &String) -> (r: Option<&'a Route>)
        ensures
            match r {
                Some(route) => self@.contains_key(keyword@) && *route == self@[keyword@],
                None => !self@.contains_key(keyword@),
            },
    {
        proof {
            use_type_invariant(&*self);
        }
        let n = self.entries.len();
        let mut i: usize = 0;
        while i < n
            invariant
                n == self.entries@.len(),
                0 <= i <= n,
                forall|j: int| 0 <= j < i ==> (#[trigger] self.entries@[j]).0@ != keyword@,
                unique_keys(self.entries@),
            decreases n - i,
        {
            let e = &self.entries[i];
            if e.0 == *keyword {
                proof {
                    lemma_assoc_last_match(self.entries@, i as int, keyword@);
                }
                return Some(&e.1);
            }
            i += 1;
        }
        proof {
            lemma_assoc_absent(self.entries@, keyword@);
        }
        None
    }

    /// How many keywords are mapped.
    pub fn len(&self) -> (n: usize)
        ensures
            n == self@.dom().len(),
    {
        proof {
            use_type_invariant(&*self);
            lemma_assoc_dom_len(self.entries@);
        }
        self.entries.len()
    }

    /// Merges every route of `group` into this index, overwriting any
    /// keyword the group shares with it.
    pub fn extend_from_group(&mut self, group: &RouteGroup)
        ensures
            final(self)@ == old(self)@.union_prefer_right(group.routes@),
    {
        proof {
            use_type_invariant(&group.routes);
        }
        let ghost es = group.routes.entries@;
        let ghost base = self@;
        let n = group.routes.entries.len();
        let mut e: usize = 0;
        proof {
            assert(es.subrange(0, 0) =~= Seq::<(String, Route)>::empty());
            assert_maps_equal!(base.union_prefer_right(assoc_map(es.subrange(0, 0))), base);
        }
        while e < n
            invariant
                0 <= e <= n,
                n == es.len(),
                group.routes.entries@ == es,
                self@ == base.union_prefer_right(assoc_map(es.subrange(0, e as int))),
            decreases n - e,
        {
            let entry = &group.routes.entries[e];
            let ghost mid = assoc_map(es.subrange(0, e as int));
            self.insert(entry.0.clone(), entry.1.clone());
            proof {
                assert(es.subrange(0, e as int + 1).drop_last() =~= es.subrange(0, e as int));
                assert(assoc_map(es.subrange(0, e as int + 1)) == mid.insert(es[e as int].0@, es[e as int].1));
                assert_maps_equal!(
                    base.union_prefer_right(mid.insert(es[e as int].0@, es[e as int].1)),
                    base.union_prefer_right(mid).insert(es[e as int].0@, es[e as int].1)
                );
            }
            e += 1;
        }
        proof {
            assert(es.subrange(0, n as int) =~= es);
        }
    }

    /// The entry at position `i`, for enumerating the index.
    pub fn entry_at<'a>(&'a self, i: usize) -> (r: (&'a String, &'a Route))
        requires
            i < self@.dom().len(),
        ensures
            self@.contains_key(r.0@),
            self@[r.0@] == *r.1,
    {
        proof {
            use_type_invariant(&*self);
            lemma_assoc_dom_len(self.entries@);
            lemma_assoc_last_match(self.entries@, i as int, self.entries@[i as int].0@);
        }
        let entry = &self.entries[i];
        (&entry.0, &entry.1)
    }

    /// Whether no keyword is mapped.
    pub fn is_empty(&self) -> (r: bool)
        ensures
            r == (self@.dom() =~= Set::<Seq<char>>::empty()),
    {
        proof {
            use_type_invariant(&*self);
            lemma_assoc_dom_len(self.entries@);
            if self.entries@.len() > 0 {
                assert(self@.dom().len() > 0);
            }
        }
        self.entries.is_empty()
    }
}

} // verus!
