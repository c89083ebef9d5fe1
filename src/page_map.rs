use vstd::prelude::*;

use crate::url_set::{distinct_strings, lemma_same_strings, strings_set};

verus! {

/// The map that a sequence of entries builds, a later entry replacing an
/// earlier one of the same key.
pub open spec fn entries_map(s: Seq<(Seq<char>, Set<Seq<char>>)>) -> Map<Seq<char>, Set<Seq<char>>>
    decreases s.len(),
{
    if s.len() == 0 {
        Map::empty()
    } else {
        entries_map(s.drop_last()).insert(s.last().0, s.last().1)
    }
}

pub open spec fn distinct_keys(s: Seq<(Seq<char>, Set<Seq<char>>)>) -> bool {
    forall|a: int, b: int| 0 <= a < b < s.len() ==> #[trigger] s[a].0 != #[trigger] s[b].0
}

proof fn lemma_entries_map_update(s: Seq<(Seq<char>, Set<Seq<char>>)>, i: int, v: Set<Seq<char>>)
    requires
        distinct_keys(s),
        0 <= i < s.len(),
    ensures
        entries_map(s.update(i, (s[i].0, v))) == entries_map(s).insert(s[i].0, v),
    decreases s.len(),
{
    let k = s[i].0;
    let t = s.update(i, (k, v));
    let n = s.len() - 1;
    if i == n {
        assert(t.drop_last() =~= s.drop_last());
        assert(entries_map(t) =~= entries_map(s).insert(k, v));
    } else {
        let d = s.drop_last();
        assert(t.drop_last() =~= d.update(i, (k, v)));
        assert(distinct_keys(d)) by {
            assert forall|a: int, b: int| 0 <= a < b < d.len() implies #[trigger] d[a].0
                != #[trigger] d[b].0 by {
                assert(d[a] == s[a] && d[b] == s[b]);
            }
        }
        assert(d[i] == s[i]);
        lemma_entries_map_update(d, i, v);
        assert(s.last().0 != k);
        assert(t.last() == s.last());
        assert(entries_map(t) =~= entries_map(s).insert(k, v));
    }
}

proof fn lemma_entries_map_get(s: Seq<(Seq<char>, Set<Seq<char>>)>, i: int)
    requires
        distinct_keys(s),
        0 <= i < s.len(),
    ensures
        entries_map(s).contains_key(s[i].0),
        entries_map(s)[s[i].0] == s[i].1,
    decreases s.len(),
{
    if i < s.len() - 1 {
        let d = s.drop_last();
        assert(distinct_keys(d)) by {
            assert forall|a: int, b: int| 0 <= a < b < d.len() implies #[trigger] d[a].0
                != #[trigger] d[b].0 by {
                assert(d[a] == s[a] && d[b] == s[b]);
            }
        }
        assert(d[i] == s[i]);
        lemma_entries_map_get(d, i);
        assert(s.last().0 != s[i].0);
    }
}

proof fn lemma_entries_map_keys(s: Seq<(Seq<char>, Set<Seq<char>>)>, p: Seq<char>)
    requires
        entries_map(s).contains_key(p),
    ensures
        exists|i: int| 0 <= i < s.len() && s[i].0 == p,
    decreases s.len(),
{
    if s.last().0 == p {
        assert(s[s.len() - 1].0 == p);
    } else {
        let d = s.drop_last();
        lemma_entries_map_keys(d, p);
        let i = choose|i: int| 0 <= i < d.len() && d[i].0 == p;
        assert(s[i] == d[i]);
    }
}

/// The links found on each fetched page.
pub struct PageMap {
    pages: Vec<String>,
    links: Vec<Vec<String>>,
}

impl PageMap {
    pub closed spec fn entries(&self) -> Seq<(Seq<char>, Set<Seq<char>>)> {
        Seq::new(
            self.pages@.len(),
            |i: int| (self.pages@[i]@, strings_set(self.links@[i]@)),
        )
    }

    pub closed spec fn links_map(&self) -> Map<Seq<char>, Set<Seq<char>>> {
        entries_map(self.entries())
    }

    pub closed spec fn wf(&self) -> bool {
        &&& self.pages@.len() == self.links@.len()
        &&& distinct_strings(self.pages@)
    }

    pub fn new() -> (r: Self)
        ensures
            r.wf(),
            r.links_map() == Map::<Seq<char>, Set<Seq<char>>>::empty(),
    {
        let r = PageMap { pages: Vec::new(), links: Vec::new() };
        proof {
            assert(r.entries().len() == 0);
        }
        r
    }

    /// Records the links of a page, replacing what was recorded for it before.
    pub fn insert(&mut self, page: String, links: Vec<String>)
        requires
            old(self).wf(),
        ensures
            final(self).wf(),
            final(self).links_map() == old(self).links_map().insert(page@, strings_set(links@)),
    {
        let ghost e0 = old(self).entries();
        proof {
            assert(distinct_keys(e0)) by {
                assert forall|a: int, b: int| 0 <= a < b < e0.len() implies #[trigger] e0[a].0
                    != #[trigger] e0[b].0 by {
                    assert(self.pages@[a]@ != self.pages@[b]@);
                }
            }
        }
        let mut i: usize = 0;
        while i < self.pages.len()
            invariant
                self.wf(),
                self.entries() == e0,
                old(self).entries() == e0,
                i <= self.pages@.len(),
                forall|k: int| 0 <= k < i ==> (#[trigger] self.pages@[k])@ != page@,
            decreases self.pages@.len() - i,
        {
            if self.pages[i] == page {
                let ghost v = strings_set(links@);
                self.links.set(i, links);
                proof {
                    assert(self.entries() =~= e0.update(i as int, (e0[i as int].0, v)));
                    lemma_entries_map_update(e0, i as int, v);
                    assert(e0[i as int].0 == page@);
                    assert(self.links_map() == entries_map(e0).insert(page@, v));
                    assert(old(self).links_map() == entries_map(e0));
                }
                return;
            }
            i = i + 1;
        }
        let ghost v = strings_set(links@);
        self.pages.push(page);
        self.links.push(links);
        proof {
            let e1 = self.entries();
            assert(e1.drop_last() =~= e0);
            assert(e1.last() == (page@, v));
            assert forall|a: int, b: int| 0 <= a < b < self.pages@.len() implies #[trigger] self.pages@[a]@
                != #[trigger] self.pages@[b]@ by {
                if b == self.pages@.len() - 1 {
                    assert(self.pages@[b]@ == page@);
                }
            }
        }
    }

    /// Each page with its links, each page once, in the order first recorded.
    pub fn to_vec(&self) -> (r: Vec<(String, Vec<String>)>)
        requires
            self.wf(),
        ensures
            forall|i: int|
                0 <= i < r@.len() ==> self.links_map().contains_key((#[trigger] r@[i]).0@)
                    && self.links_map()[r@[i].0@] == strings_set(r@[i].1@),
            forall|p: Seq<char>|
                #[trigger] self.links_map().contains_key(p) ==> exists|i: int|
                    0 <= i < r@.len() && (#[trigger] r@[i]).0@ == p,
            forall|i: int, j: int| 0 <= i < j < r@.len() ==> (#[trigger] r@[i]).0@ != (#[trigger] r@[j]).0@,
    {
        let mut r: Vec<(String, Vec<String>)> = Vec::new();
        let mut i: usize = 0;
        while i < self.pages.len()
            invariant
                self.wf(),
                i <= self.pages@.len(),
                r@.len() == i,
                forall|k: int|
                    0 <= k < i ==> (#[trigger] r@[k]).0@ == self.entries()[k].0 && strings_set(
                        r@[k].1@,
                    ) == self.entries()[k].1,
            decreases self.pages@.len() - i,
        {
            let links = self.links[i].clone();
            proof {
                lemma_same_strings(links@, self.links@[i as int]@);
            }
            proof {
                self.lemma_distinct_keys();
                lemma_entries_map_get(self.entries(), i as int);
            }
            r.push((self.pages[i].clone(), links));
            i = i + 1;
        }
        proof {
            assert forall|k: int| 0 <= k < r@.len() implies self.links_map().contains_key(
                (#[trigger] r@[k]).0@,
            ) && self.links_map()[r@[k].0@] == strings_set(r@[k].1@) by {
                self.lemma_distinct_keys();
                lemma_entries_map_get(self.entries(), k);
            }
            assert forall|p: Seq<char>| #[trigger] self.links_map().contains_key(p) implies exists|
                i: int,
            | 0 <= i < r@.len() && (#[trigger] r@[i]).0@ == p by {
                lemma_entries_map_keys(self.entries(), p);
                let i = choose|i: int| 0 <= i < self.entries().len() && self.entries()[i].0 == p;
                assert(r@[i].0@ == p);
            }
            assert forall|i: int, j: int| 0 <= i < j < r@.len() implies (#[trigger] r@[i]).0@
                != (#[trigger] r@[j]).0@ by {
                assert(self.pages@[i]@ != self.pages@[j]@);
            }
        }
        r
    }

    proof fn lemma_distinct_keys(&self)
        requires
            self.wf(),
        ensures
            distinct_keys(self.entries()),
    {
        assert forall|a: int, b: int| 0 <= a < b < self.entries().len() implies #[trigger] self.entries()[a].0
            != #[trigger] self.entries()[b].0 by {
            assert(self.pages@[a]@ != self.pages@[b]@);
        }
    }
}

} // verus!
