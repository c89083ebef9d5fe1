use vstd::prelude::*;

verus! {

/// The strings that a sequence of `String`s holds.
pub open spec fn strings_set(v: Seq<String>) -> Set<Seq<char>> {
    Set::new(|x: Seq<char>| exists|i: int| 0 <= i < v.len() && #[trigger] v[i]@ == x)
}

/// Whether no two elements of `v` hold the same string.
pub open spec fn distinct_strings(v: Seq<String>) -> bool {
    forall|i: int, j: int| 0 <= i < j < v.len() ==> #[trigger] v[i]@ != #[trigger] v[j]@
}

/// Two sequences that hold equal strings at each index hold the same set.
pub proof fn lemma_same_strings(a: Seq<String>, b: Seq<String>)
    requires
        a.len() == b.len(),
        forall|i: int| 0 <= i < a.len() ==> a[i] == b[i],
    ensures
        strings_set(a) == strings_set(b),
{
    assert forall|x: Seq<char>| #[trigger] strings_set(a).contains(x) == strings_set(b).contains(
        x,
    ) by {
        if strings_set(a).contains(x) {
            let j = choose|j: int| 0 <= j < a.len() && a[j]@ == x;
            assert(b[j]@ == x);
        }
        if strings_set(b).contains(x) {
            let j = choose|j: int| 0 <= j < b.len() && b[j]@ == x;
            assert(a[j]@ == x);
        }
    }
    assert(strings_set(a) =~= strings_set(b));
}

/// A set of strings with an atomic check-and-insert.
pub struct UrlSet {
    items: Vec<String>,
}

impl View for UrlSet {
    type V = Set<Seq<char>>;

    closed spec fn view(&self) -> Set<Seq<char>> {
        strings_set(self.items@)
    }
}

impl UrlSet {
    pub closed spec fn wf(&self) -> bool {
        distinct_strings(self.items@)
    }

    pub fn new() -> (r: Self)
        ensures
            r.wf(),
            r@ == Set::<Seq<char>>::empty(),
    {
        let r = UrlSet { items: Vec::new() };
        proof {
            assert(r@ =~= Set::<Seq<char>>::empty());
        }
        r
    }

    pub fn contains(&self, s: &String) -> (r: bool)
        ensures
            r == self@.contains(s@),
    {
        let mut i: usize = 0;
        while i < self.items.len()
            invariant
                i <= self.items@.len(),
                forall|k: int| 0 <= k < i ==> (#[trigger] self.items@[k])@ != s@,
            decreases self.items@.len() - i,
        {
            if self.items[i] == *s {
                proof {
                    assert(self.items@[i as int]@ == s@);
                }
                return true;
            }
            i = i + 1;
        }
        false
    }

    /// Adds `s`; the result tells whether it was absent before, so that of
    /// several callers inserting one string exactly one learns it was new.
    pub fn insert(&mut self, s: String) -> (newly: bool)
        requires
            old(self).wf(),
        ensures
            final(self).wf(),
            newly == !old(self)@.contains(s@),
            final(self)@ == old(self)@.insert(s@),
    {
        if self.contains(&s) {
            proof {
                assert(self@.insert(s@) =~= self@);
            }
            false
        } else {
            let ghost before = self.items@;
            self.items.push(s);
            proof {
                assert(self.items@ =~= before.push(s));
                assert forall|i: int, j: int|
                    0 <= i < j < self.items@.len() implies #[trigger] self.items@[i]@
                    != #[trigger] self.items@[j]@ by {
                    if j == before.len() {
                        assert(self.items@[i] == before[i]);
                    }
                }
                assert forall|x: Seq<char>| #[trigger] self@.contains(x) == strings_set(
                    before,
                ).insert(s@).contains(x) by {
                    if strings_set(before).contains(x) {
                        let i = choose|i: int| 0 <= i < before.len() && before[i]@ == x;
                        assert(self.items@[i]@ == x);
                    }
                    if x == s@ {
                        assert(self.items@[before.len() as int]@ == x);
                    }
                }
                assert(self@ =~= old(self)@.insert(s@));
            }
            true
        }
    }

    /// The strings held, each once.
    pub fn to_vec(&self) -> (r: Vec<String>)
        requires
            self.wf(),
        ensures
            strings_set(r@) == self@,
            distinct_strings(r@),
    {
        self.items.clone()
    }
}

/// How many of `n` successive inserts of `u`, starting from the set `s`,
/// report `u` as new, each insert behaving as `UrlSet::insert` states.
pub open spec fn claims_won(s: Set<Seq<char>>, u: Seq<char>, n: nat) -> nat
    decreases n,
{
    if n == 0 {
        0
    } else {
        (if s.contains(u) {
            0nat
        } else {
            1nat
        }) + claims_won(s.insert(u), u, (n - 1) as nat)
    }
}

/// Of any number of inserts of one string, however they are ordered, the
/// first alone reports it as new, and none does if it was there already.
pub proof fn lemma_claim_exactly_once(s: Set<Seq<char>>, u: Seq<char>, n: nat)
    ensures
        claims_won(s, u, n) == if n > 0 && !s.contains(u) {
            1nat
        } else {
            0nat
        },
    decreases n,
{
    if n > 0 {
        lemma_claim_exactly_once(s.insert(u), u, (n - 1) as nat);
        assert(s.insert(u).contains(u));
    }
}

} // verus!
