//! A finite binary relation between strings, held as a duplicate-free list of
//! pairs. It backs the posting lists and the link graph of the index store.
use vstd::prelude::*;

verus! {

/// The number of pairs of `ps` whose key is `k`.
pub open spec fn count_key(ps: Seq<(String, String)>, k: Seq<char>) -> nat
    decreases ps.len(),
{
    if ps.len() == 0 {
        0
    } else {
        count_key(ps.drop_last(), k) + if ps.last().0@ == k {
            1nat
        } else {
            0nat
        }
    }
}

/// The values paired with `k` in `ps`.
pub open spec fn values_with(ps: Seq<(String, String)>, k: Seq<char>) -> Set<Seq<char>> {
    Set::new(|v: Seq<char>| exists|i: int| 0 <= i < ps.len() && #[trigger] ps[i].0@ == k && ps[i].1@ == v)
}

proof fn lemma_count_key_bound(ps: Seq<(String, String)>, k: Seq<char>)
    ensures
        count_key(ps, k) <= ps.len(),
    decreases ps.len(),
{
    if ps.len() > 0 {
        lemma_count_key_bound(ps.drop_last(), k);
    }
}

proof fn lemma_values_with(ps: Seq<(String, String)>, k: Seq<char>)
    requires
        forall|i: int, j: int|
            #![trigger ps[i], ps[j]]
            0 <= i < j < ps.len() ==> !(ps[i].0@ == ps[j].0@ && ps[i].1@ == ps[j].1@),
    ensures
        values_with(ps, k).finite(),
        values_with(ps, k).len() == count_key(ps, k),
    decreases ps.len(),
{
    if ps.len() == 0 {
        assert(values_with(ps, k) =~= Set::empty());
    } else {
        let q = ps.drop_last();
        let n = q.len() as int;
        assert forall|i: int, j: int|
            #![trigger q[i], q[j]]
            0 <= i < j < q.len() implies !(q[i].0@ == q[j].0@ && q[i].1@ == q[j].1@) by {
            assert(q[i] == ps[i] && q[j] == ps[j]);
        }
        lemma_values_with(q, k);
        if ps.last().0@ == k {
            let v = ps.last().1@;
            assert(values_with(ps, k) =~= values_with(q, k).insert(v)) by {
                assert forall|x: Seq<char>| values_with(ps, k).contains(x) <==> values_with(q, k).insert(v).contains(x) by {
                    if values_with(ps, k).contains(x) {
                        let i = choose|i: int| 0 <= i < ps.len() && #[trigger] ps[i].0@ == k && ps[i].1@ == x;
                        if i < n {
                            assert(q[i] == ps[i]);
                        }
                    }
                    if values_with(q, k).contains(x) {
                        let i = choose|i: int| 0 <= i < q.len() && #[trigger] q[i].0@ == k && q[i].1@ == x;
                        assert(ps[i] == q[i]);
                    }
                    if x == v {
                        assert(ps[n].0@ == k);
                    }
                }
            }
            assert(!values_with(q, k).contains(v)) by {
                if values_with(q, k).contains(v) {
                    let i = choose|i: int| 0 <= i < q.len() && #[trigger] q[i].0@ == k && q[i].1@ == v;
                    assert(ps[i] == q[i]);
                    assert(!(ps[i].0@ == ps[n].0@ && ps[i].1@ == ps[n].1@));
                }
            }
        } else {
            assert(values_with(ps, k) =~= values_with(q, k)) by {
                assert forall|x: Seq<char>| values_with(ps, k).contains(x) <==> values_with(q, k).contains(x) by {
                    if values_with(ps, k).contains(x) {
                        let i = choose|i: int| 0 <= i < ps.len() && #[trigger] ps[i].0@ == k && ps[i].1@ == x;
                        if i < n {
                            assert(q[i] == ps[i]);
                        }
                    }
                    if values_with(q, k).contains(x) {
                        let i = choose|i: int| 0 <= i < q.len() && #[trigger] q[i].0@ == k && q[i].1@ == x;
                        assert(ps[i] == q[i]);
                    }
                }
            }
        }
    }
}

/// A set of `(key, value)` string pairs.
pub struct Relation {
    pairs: Vec<(String, String)>,
}

impl Relation {
    /// The pair `(k, v)` is in the relation.
    pub closed spec fn has(&self, k: Seq<char>, v: Seq<char>) -> bool {
        exists|i: int|
            #![trigger self.pairs@[i]]
            0 <= i < self.pairs@.len() && self.pairs@[i].0@ == k && self.pairs@[i].1@ == v
    }

    /// The number of pairs whose key is `k`.
    pub closed spec fn spec_count(&self, k: Seq<char>) -> nat {
        count_key(self.pairs@, k)
    }

    /// No pair is held twice.
    pub closed spec fn wf(&self) -> bool {
        forall|i: int, j: int|
            #![trigger self.pairs@[i], self.pairs@[j]]
            0 <= i < j < self.pairs@.len() ==> !(self.pairs@[i].0@ == self.pairs@[j].0@
                && self.pairs@[i].1@ == self.pairs@[j].1@)
    }

    /// The empty relation.
    pub fn new() -> (r: Relation)
        ensures
            r.wf(),
            forall|k: Seq<char>, v: Seq<char>| !r.has(k, v),
    {
        Relation { pairs: Vec::new() }
    }

    /// Whether `(k, v)` is in the relation.
    pub fn contains(&self, k: &String, v: &String) -> (r: bool)
        ensures
            r == self.has(k@, v@),
    {
        let mut i: usize = 0;
        while i < self.pairs.len()
            invariant
                0 <= i <= self.pairs@.len(),
                forall|j: int|
                    0 <= j < i ==> !(self.pairs@[j].0@ == k@ && self.pairs@[j].1@ == v@),
            decreases self.pairs@.len() - i,
        {
            if self.pairs[i].0 == *k && self.pairs[i].1 == *v {
                return true;
            }
            i += 1;
        }
        false
    }

    /// Adds `(k, v)`; a pair already present is left as it is.
    pub fn insert(&mut self, k: &String, v: &String)
        requires
            old(self).wf(),
        ensures
            final(self).wf(),
            forall|a: Seq<char>, b: Seq<char>|
                #[trigger] final(self).has(a, b) <==> old(self).has(a, b) || (a == k@ && b == v@),
    {
        if self.contains(k, v) {
            return;
        }
        let ghost before = self.pairs@;
        self.pairs.push((k.clone(), v.clone()));
        proof {
            let n = before.len() as int;
            assert(self.pairs@[n].0@ == k@ && self.pairs@[n].1@ == v@);
            assert forall|i: int| 0 <= i < n implies #[trigger] self.pairs@[i] == before[i] by {}
            assert forall|a: Seq<char>, b: Seq<char>|
                #[trigger] self.has(a, b) <==> (exists|i: int|
                    0 <= i < before.len() && #[trigger] before[i].0@ == a && before[i].1@ == b)
                    || (a == k@ && b == v@) by {
                if self.has(a, b) {
                    let i = choose|i: int|
                        0 <= i < self.pairs@.len() && #[trigger] self.pairs@[i].0@ == a
                            && self.pairs@[i].1@ == b;
                    if i < n {
                        assert(before[i].0@ == a);
                    }
                }
                if exists|i: int|
                    0 <= i < before.len() && #[trigger] before[i].0@ == a && before[i].1@ == b {
                    let i = choose|i: int|
                        0 <= i < before.len() && #[trigger] before[i].0@ == a && before[i].1@ == b;
                    assert(self.pairs@[i].0@ == a);
                }
                if a == k@ && b == v@ {
                    assert(self.pairs@[n].0@ == a);
                }
            }
        }
    }

    /// The number of values related to `k`.
    pub fn count(&self, k: &String) -> (r: usize)
        ensures
            r == self.spec_count(k@),
    {
        let mut c: usize = 0;
        let mut i: usize = 0;
        while i < self.pairs.len()
            invariant
                0 <= i <= self.pairs@.len(),
                c == count_key(self.pairs@.subrange(0, i as int), k@),
            decreases self.pairs@.len() - i,
        {
            proof {
                let s = self.pairs@.subrange(0, i as int + 1);
                assert(s.drop_last() =~= self.pairs@.subrange(0, i as int));
                lemma_count_key_bound(self.pairs@.subrange(0, i as int), k@);
            }
            if self.pairs[i].0 == *k {
                c += 1;
            }
            i += 1;
        }
        assert(self.pairs@.subrange(0, i as int) =~= self.pairs@);
        c
    }

    /// Where the relation is well formed, the number of pairs with key `k`
    /// is the number of distinct values related to `k`.
    pub proof fn lemma_count_is_size(&self, k: Seq<char>)
        requires
            self.wf(),
        ensures
            Set::new(|v: Seq<char>| self.has(k, v)).finite(),
            Set::new(|v: Seq<char>| self.has(k, v)).len() == self.spec_count(k),
    {
        lemma_values_with(self.pairs@, k);
        assert(Set::new(|v: Seq<char>| self.has(k, v)) =~= values_with(self.pairs@, k));
    }

    /// The values related to `k`, each once.
    pub fn values_of(&self, k: &String) -> (r: Vec<String>)
        requires
            self.wf(),
        ensures
            forall|j: int| 0 <= j < r@.len() ==> self.has(k@, #[trigger] r@[j]@),
            forall|v: Seq<char>|
                self.has(k@, v) ==> exists|j: int| 0 <= j < r@.len() && #[trigger] r@[j]@ == v,
            forall|a: int, b: int| 0 <= a < b < r@.len() ==> r@[a]@ != r@[b]@,
    {
        let mut r: Vec<String> = Vec::new();
        let ghost mut idx: Seq<int> = Seq::empty();
        let mut i: usize = 0;
        while i < self.pairs.len()
            invariant
                0 <= i <= self.pairs@.len(),
                self.wf(),
                idx.len() == r@.len(),
                forall|j: int|
                    #![trigger idx[j]]
                    0 <= j < r@.len() ==> 0 <= idx[j] < i && self.pairs@[idx[j]].0@ == k@
                        && self.pairs@[idx[j]].1@ == r@[j]@,
                forall|m: int|
                    #![trigger self.pairs@[m]]
                    0 <= m < i && self.pairs@[m].0@ == k@ ==> exists|j: int|
                        0 <= j < r@.len() && #[trigger] r@[j]@ == self.pairs@[m].1@,
                forall|a: int, b: int| 0 <= a < b < r@.len() ==> r@[a]@ != r@[b]@,
            decreases self.pairs@.len() - i,
        {
            if self.pairs[i].0 == *k {
                let v = self.pairs[i].1.clone();
                proof {
                    assert forall|j: int| 0 <= j < r@.len() implies r@[j]@ != v@ by {
                        let m = idx[j];
                        assert(self.pairs@[m].0@ == k@ && self.pairs@[m].1@ == r@[j]@);
                        assert(m < i);
                    }
                }
                let ghost old_r = r@;
                r.push(v);
                proof {
                    idx = idx.push(i as int);
                    assert forall|j: int| 0 <= j < old_r.len() implies r@[j] == old_r[j] by {}
                    let n = r@.len() - 1;
                    assert(r@[n]@ == self.pairs@[i as int].1@);
                    assert forall|m: int|
                        #![trigger self.pairs@[m]]
                        0 <= m < i + 1 && self.pairs@[m].0@ == k@ implies exists|j: int|
                        0 <= j < r@.len() && #[trigger] r@[j]@ == self.pairs@[m].1@ by {
                        if m < i {
                            let j = choose|j: int|
                                0 <= j < old_r.len() && #[trigger] old_r[j]@ == self.pairs@[m].1@;
                            assert(r@[j]@ == self.pairs@[m].1@);
                        } else {
                            assert(r@[n]@ == self.pairs@[m].1@);
                        }
                    }
                }
            }
            i += 1;
        }
        proof {
            assert forall|j: int| 0 <= j < r@.len() implies self.has(k@, #[trigger] r@[j]@) by {
                let m = idx[j];
                assert(self.pairs@[m].0@ == k@);
            }
            assert forall|v: Seq<char>| self.has(k@, v) implies exists|j: int|
                0 <= j < r@.len() && #[trigger] r@[j]@ == v by {
                let m = choose|m: int|
                    #![trigger self.pairs@[m]]
                    0 <= m < self.pairs@.len() && self.pairs@[m].0@ == k@ && self.pairs@[m].1@ == v;
                assert(self.pairs@[m].0@ == k@);
            }
        }
        r
    }
    /// The pairs in the order they were added.
    pub closed spec fn entries(&self) -> Seq<(String, String)> {
        self.pairs@
    }

    /// No pair occurs twice in `pairs`.
    pub open spec fn distinct_pairs(pairs: Seq<(String, String)>) -> bool {
        forall|i: int, j: int|
            #![trigger pairs[i], pairs[j]]
            0 <= i < j < pairs.len() ==> !(pairs[i].0@ == pairs[j].0@ && pairs[i].1@ == pairs[j].1@)
    }

    /// Two relations holding the same pairs in the same order agree on
    /// everything.
    pub proof fn lemma_same_entries(a: &Relation, b: &Relation)
        requires
            a.entries() == b.entries(),
        ensures
            a.wf() == b.wf(),
            forall|k: Seq<char>, v: Seq<char>|
                #![trigger a.has(k, v)]
                #![trigger b.has(k, v)]
                a.has(k, v) == b.has(k, v),
            forall|k: Seq<char>|
                #![trigger a.spec_count(k)]
                #![trigger b.spec_count(k)]
                a.spec_count(k) == b.spec_count(k),
    {
    }

    /// Each pair of the relation is one of its entries, and each entry is a
    /// pair of it.
    pub proof fn lemma_entries(a: &Relation)
        ensures
            forall|k: Seq<char>, v: Seq<char>|
                #[trigger] a.has(k, v) ==> exists|i: int|
                    0 <= i < a.entries().len() && #[trigger] a.entries()[i].0@ == k && a.entries()[i].1@
                        == v,
            forall|i: int|
                0 <= i < a.entries().len() ==> a.has(#[trigger] a.entries()[i].0@, a.entries()[i].1@),
    {
        assert forall|k: Seq<char>, v: Seq<char>| #[trigger] a.has(k, v) implies exists|i: int|
            0 <= i < a.entries().len() && #[trigger] a.entries()[i].0@ == k && a.entries()[i].1@ == v by {
            let i = choose|i: int|
                #![trigger a.pairs@[i]]
                0 <= i < a.pairs@.len() && a.pairs@[i].0@ == k && a.pairs@[i].1@ == v;
            assert(a.entries()[i].0@ == k);
        }
        assert forall|i: int|
            0 <= i < a.entries().len() implies a.has(#[trigger] a.entries()[i].0@, a.entries()[i].1@) by {
            assert(a.pairs@[i] == a.entries()[i]);
        }
    }

    /// A relation is well formed exactly when its pairs are distinct.
    pub proof fn lemma_wf_distinct(a: &Relation)
        ensures
            a.wf() == Relation::distinct_pairs(a.entries()),
    {
    }

    /// The pairs, in the order they were added.
    pub fn to_pairs(&self) -> (r: Vec<(String, String)>)
        ensures
            r@ == self.entries(),
    {
        let mut r: Vec<(String, String)> = Vec::new();
        let mut i: usize = 0;
        while i < self.pairs.len()
            invariant
                0 <= i <= self.pairs@.len(),
                r@ == self.pairs@.subrange(0, i as int),
            decreases self.pairs@.len() - i,
        {
            r.push((self.pairs[i].0.clone(), self.pairs[i].1.clone()));
            i += 1;
            assert(r@ =~= self.pairs@.subrange(0, i as int));
        }
        assert(r@ =~= self.pairs@);
        r
    }

    /// The relation holding exactly `pairs`, or `None` when a pair occurs
    /// twice.
    pub fn from_pairs(pairs: Vec<(String, String)>) -> (r: Option<Relation>)
        ensures
            r is Some <==> Relation::distinct_pairs(pairs@),
            r matches Some(rel) ==> rel.wf() && rel.entries() == pairs@,
    {
        let mut i: usize = 0;
        while i < pairs.len()
            invariant
                0 <= i <= pairs@.len(),
                forall|a: int, b: int|
                    #![trigger pairs@[a], pairs@[b]]
                    0 <= a < b < pairs@.len() && a < i ==> !(pairs@[a].0@ == pairs@[b].0@ && pairs@[a].1@
                        == pairs@[b].1@),
            decreases pairs@.len() - i,
        {
            let mut j: usize = i + 1;
            while j < pairs.len()
                invariant
                    0 <= i < j <= pairs@.len(),
                    forall|a: int, b: int|
                        #![trigger pairs@[a], pairs@[b]]
                        0 <= a < b < pairs@.len() && a < i ==> !(pairs@[a].0@ == pairs@[b].0@
                            && pairs@[a].1@ == pairs@[b].1@),
                    forall|b: int|
                        #![trigger pairs@[b]]
                        i < b < j ==> !(pairs@[i as int].0@ == pairs@[b].0@ && pairs@[i as int].1@
                            == pairs@[b].1@),
                decreases pairs@.len() - j,
            {
                if pairs[i].0 == pairs[j].0 && pairs[i].1 == pairs[j].1 {
                    assert(pairs@[i as int].0@ == pairs@[j as int].0@ && pairs@[i as int].1@ == pairs@[j as int].1@);
                    return None;
                }
                j += 1;
            }
            i += 1;
        }
        Some(Relation { pairs })
    }

    /// Whether every pair of this relation, reversed, is in `other`.
    pub fn mirrored_in(&self, other: &Relation) -> (r: bool)
        ensures
            r == forall|a: Seq<char>, b: Seq<char>| #[trigger] self.has(a, b) ==> other.has(b, a),
    {
        let mut i: usize = 0;
        while i < self.pairs.len()
            invariant
                0 <= i <= self.pairs@.len(),
                forall|j: int| #![trigger self.pairs@[j]] 0 <= j < i ==> other.has(self.pairs@[j].1@, self.pairs@[j].0@),
            decreases self.pairs@.len() - i,
        {
            if !other.contains(&self.pairs[i].1, &self.pairs[i].0) {
                assert(self.has(self.pairs@[i as int].0@, self.pairs@[i as int].1@));
                return false;
            }
            i += 1;
        }
        proof {
            assert forall|a: Seq<char>, b: Seq<char>| #[trigger] self.has(a, b) implies other.has(b, a) by {
                let k = choose|k: int|
                    #![trigger self.pairs@[k]]
                    0 <= k < self.pairs@.len() && self.pairs@[k].0@ == a && self.pairs@[k].1@ == b;
            }
        }
        true
    }
}

} // verus!
