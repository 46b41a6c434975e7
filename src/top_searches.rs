//! Counts of searched keywords, and the most searched of them.
use crate::ranking::{placed, rank_desc};
use vstd::prelude::*;

verus! {

/// How many times each keyword has been searched.
pub struct TopSearches {
    counts: Vec<(String, usize)>,
}

impl TopSearches {
    /// The keywords with their counts, each keyword once, in order of first
    /// search.
    pub closed spec fn tallies(&self) -> Seq<(Seq<char>, usize)> {
        self.counts@.map_values(|e: (String, usize)| (e.0@, e.1))
    }

    /// Each keyword is held once, with a positive count.
    pub closed spec fn wf(&self) -> bool {
        &&& forall|i: int, j: int|
            #![trigger self.counts@[i], self.counts@[j]]
            0 <= i < j < self.counts@.len() ==> self.counts@[i].0@ != self.counts@[j].0@
        &&& forall|i: int| 0 <= i < self.counts@.len() ==> #[trigger] self.counts@[i].1 > 0
    }

    /// The keywords searched at least once are those with a positive count,
    /// and there are as many of them as tallies.
    pub proof fn lemma_searched_words(&self)
        requires
            self.wf(),
        ensures
            forall|w: Seq<char>| #[trigger] self.searched(w) <==> self.count_of(w) > 0,
            Set::new(|w: Seq<char>| self.count_of(w) > 0).finite(),
            Set::new(|w: Seq<char>| self.count_of(w) > 0).len() == self.tallies().len(),
    {
        let t = self.tallies();
        let keys = t.map_values(|e: (Seq<char>, usize)| e.0);
        assert forall|w: Seq<char>| #[trigger] self.searched(w) <==> self.count_of(w) > 0 by {
            if self.searched(w) {
                let i = choose|i: int| 0 <= i < t.len() && #[trigger] t[i].0 == w;
                assert(self.counts@[i].1 > 0);
            }
        }
        assert(keys.no_duplicates()) by {
            assert forall|i: int, j: int| 0 <= i < keys.len() && 0 <= j < keys.len() && i != j implies keys[i] != keys[j] by {
                if i < j {
                    assert(self.counts@[i].0@ != self.counts@[j].0@);
                } else {
                    assert(self.counts@[j].0@ != self.counts@[i].0@);
                }
            }
        }
        keys.unique_seq_to_set();
        assert(keys.to_set() =~= Set::new(|w: Seq<char>| self.count_of(w) > 0)) by {
            assert forall|w: Seq<char>| keys.to_set().contains(w) <==> self.count_of(w) > 0 by {
                if keys.to_set().contains(w) {
                    let i = choose|i: int| 0 <= i < keys.len() && keys[i] == w;
                    assert(t[i].0 == w);
                }
                if self.count_of(w) > 0 {
                    let i = choose|i: int| 0 <= i < t.len() && #[trigger] t[i].0 == w;
                    assert(keys[i] == w);
                }
            }
        }
        vstd::seq_lib::seq_to_set_is_finite(keys);
    }

    /// `w` has been searched at least once.
    pub open spec fn searched(&self, w: Seq<char>) -> bool {
        exists|i: int| 0 <= i < self.tallies().len() && #[trigger] self.tallies()[i].0 == w
    }

    /// How many times `w` has been searched.
    pub open spec fn count_of(&self, w: Seq<char>) -> usize {
        if self.searched(w) {
            self.tallies()[choose|i: int|
                0 <= i < self.tallies().len() && #[trigger] self.tallies()[i].0 == w].1
        } else {
            0
        }
    }

    /// No search recorded yet.
    pub fn new() -> (r: TopSearches)
        ensures
            r.wf(),
            r.tallies().len() == 0,
    {
        let r = TopSearches { counts: Vec::new() };
        assert(r.tallies() =~= Seq::empty());
        r
    }

    fn position(&self, word: &String) -> (r: Option<usize>)
        requires
            self.wf(),
        ensures
            r matches Some(i) ==> i < self.counts@.len() && self.counts@[i as int].0@ == word@,
            r is None ==> forall|i: int|
                0 <= i < self.counts@.len() ==> #[trigger] self.counts@[i].0@ != word@,
    {
        let mut i: usize = 0;
        while i < self.counts.len()
            invariant
                0 <= i <= self.counts@.len(),
                forall|j: int| 0 <= j < i ==> #[trigger] self.counts@[j].0@ != word@,
            decreases self.counts@.len() - i,
        {
            if self.counts[i].0 == *word {
                return Some(i);
            }
            i += 1;
        }
        None
    }

    /// The number of times `word` has been searched.
    pub fn count(&self, word: &str) -> (r: usize)
        requires
            self.wf(),
        ensures
            r == self.count_of(word@),
    {
        let word = word.to_string();
        let word = &word;
        match self.position(word) {
            Some(i) => {
                proof {
                    let t = self.tallies();
                    assert(t[i as int].0 == word@);
                    let c = choose|c: int| 0 <= c < t.len() && #[trigger] t[c].0 == word@;
                    if c != i {
                        assert(self.counts@[c].0@ == word@);
                    }
                }
                self.counts[i].1
            },
            None => {
                proof {
                    assert forall|c: int| 0 <= c < self.tallies().len() implies #[trigger] self.tallies()[c].0 != word@ by {
                        assert(self.counts@[c].0@ != word@);
                    }
                }
                0
            },
        }
    }

    /// Records one more search of `word`; a count that has reached the
    /// largest `usize` stays there.
    pub fn add_search(&mut self, word: &str)
        requires
            old(self).wf(),
        ensures
            final(self).wf(),
            final(self).count_of(word@) == if old(self).count_of(word@) == usize::MAX {
                usize::MAX as int
            } else {
                old(self).count_of(word@) + 1
            },
            forall|w: Seq<char>| w != word@ ==> #[trigger] final(self).count_of(w) == old(self).count_of(w),
            forall|w: Seq<char>| #[trigger] final(self).searched(w) <==> old(self).searched(w) || w == word@,
            final(self).tallies().len() == old(self).tallies().len() + if old(self).searched(word@) {
                0int
            } else {
                1int
            },
    {
        let ghost start = *self;
        let ghost st = self.tallies();
        let owned = word.to_string();
        let word = &owned;
        match self.position(word) {
            Some(i) => {
                let c = self.counts[i].1;
                let next = if c == usize::MAX { c } else { c + 1 };
                self.counts.set(i, (word.clone(), next));
                proof {
                    let t = self.tallies();
                    assert forall|a: int, b: int|
                        #![trigger self.counts@[a], self.counts@[b]]
                        0 <= a < b < self.counts@.len() implies self.counts@[a].0@ != self.counts@[b].0@ by {
                        assert(start.counts@[a].0@ != start.counts@[b].0@);
                    }
                    assert forall|k: int| 0 <= k < self.counts@.len() implies #[trigger] self.counts@[k].1 > 0 by {
                        if k != i {
                            assert(self.counts@[k] == start.counts@[k]);
                        }
                    }
                    assert forall|k: int| 0 <= k < t.len() && k != i implies #[trigger] t[k] == st[k] by {}
                    assert(t[i as int].0 == word@);
                    let cs = choose|c: int| 0 <= c < st.len() && #[trigger] st[c].0 == word@;
                    assert(st[i as int].0 == word@);
                    if cs != i {
                        assert(start.counts@[cs].0@ == word@);
                    }
                    let cf = choose|c: int| 0 <= c < t.len() && #[trigger] t[c].0 == word@;
                    if cf != i {
                        assert(self.counts@[cf].0@ == word@);
                    }
                    assert forall|w: Seq<char>| w != word@ implies #[trigger] self.count_of(w) == start.count_of(w) by {
                        if exists|k: int| 0 <= k < st.len() && #[trigger] st[k].0 == w {
                            let k = choose|k: int| 0 <= k < st.len() && #[trigger] st[k].0 == w;
                            assert(t[k].0 == w);
                            let k2 = choose|k: int| 0 <= k < t.len() && #[trigger] t[k].0 == w;
                            if k2 != k {
                                assert(self.counts@[k].0@ == w && self.counts@[k2].0@ == w);
                            }
                        }
                        if exists|k: int| 0 <= k < t.len() && #[trigger] t[k].0 == w {
                            let k = choose|k: int| 0 <= k < t.len() && #[trigger] t[k].0 == w;
                            assert(st[k].0 == w);
                        }
                    }
                    assert forall|w: Seq<char>| #[trigger] self.searched(w) <==> start.searched(w) || w == word@ by {
                        if self.searched(w) {
                            let k = choose|k: int| 0 <= k < t.len() && #[trigger] t[k].0 == w;
                            assert(st[k].0 == w);
                        }
                        if start.searched(w) {
                            let k = choose|k: int| 0 <= k < st.len() && #[trigger] st[k].0 == w;
                            assert(t[k].0 == w);
                        }
                    }
                }
            },
            None => {
                self.counts.push((word.clone(), 1));
                proof {
                    let t = self.tallies();
                    let n = st.len() as int;
                    assert forall|a: int, b: int|
                        #![trigger self.counts@[a], self.counts@[b]]
                        0 <= a < b < self.counts@.len() implies self.counts@[a].0@ != self.counts@[b].0@ by {
                        if b < n {
                            assert(start.counts@[a].0@ != start.counts@[b].0@);
                        } else {
                            assert(self.counts@[a] == start.counts@[a]);
                        }
                    }
                    assert forall|k: int| 0 <= k < self.counts@.len() implies #[trigger] self.counts@[k].1 > 0 by {
                        if k < n {
                            assert(self.counts@[k] == start.counts@[k]);
                        }
                    }
                    assert forall|k: int| 0 <= k < n implies #[trigger] t[k] == st[k] by {}
                    assert(t[n].0 == word@);
                    assert forall|k: int| 0 <= k < st.len() implies #[trigger] st[k].0 != word@ by {
                        assert(start.counts@[k].0@ != word@);
                    }
                    let cf = choose|c: int| 0 <= c < t.len() && #[trigger] t[c].0 == word@;
                    if cf != n {
                        assert(st[cf].0 == word@);
                    }
                    assert(!start.searched(word@));
                    assert forall|w: Seq<char>| w != word@ implies #[trigger] self.count_of(w) == start.count_of(w) by {
                        if exists|k: int| 0 <= k < st.len() && #[trigger] st[k].0 == w {
                            let k = choose|k: int| 0 <= k < st.len() && #[trigger] st[k].0 == w;
                            assert(t[k].0 == w);
                            let k2 = choose|k: int| 0 <= k < t.len() && #[trigger] t[k].0 == w;
                            if k2 != k {
                                assert(self.counts@[k].0@ == w && self.counts@[k2].0@ == w);
                            }
                        }
                        if exists|k: int| 0 <= k < t.len() && #[trigger] t[k].0 == w {
                            let k = choose|k: int| 0 <= k < t.len() && #[trigger] t[k].0 == w;
                            assert(k != n);
                            assert(st[k].0 == w);
                        }
                    }
                    assert forall|w: Seq<char>| #[trigger] self.searched(w) <==> start.searched(w) || w == word@ by {
                        if self.searched(w) {
                            let k = choose|k: int| 0 <= k < t.len() && #[trigger] t[k].0 == w;
                            if k < n {
                                assert(st[k].0 == w);
                            }
                        }
                        if start.searched(w) {
                            let k = choose|k: int| 0 <= k < st.len() && #[trigger] st[k].0 == w;
                            assert(t[k].0 == w);
                        }
                    }
                }
            },
        }
    }
    proof fn lemma_count_at(&self, i: int)
        requires
            self.wf(),
            0 <= i < self.counts@.len(),
        ensures
            self.searched(self.counts@[i].0@),
            self.count_of(self.counts@[i].0@) == self.counts@[i].1,
    {
        let t = self.tallies();
        let w = self.counts@[i].0@;
        assert(t[i].0 == w);
        let c = choose|c: int| 0 <= c < t.len() && #[trigger] t[c].0 == w;
        if c != i {
            assert(self.counts@[c].0@ == w);
        }
    }

    /// The `n` most searched keywords with their counts, most searched
    /// first; fewer when fewer keywords have been searched.
    pub fn top_n(&self, n: usize) -> (r: Vec<(String, usize)>)
        requires
            self.wf(),
        ensures
            r@.len() == if n < self.tallies().len() {
                n as int
            } else {
                self.tallies().len() as int
            },
            r@.len() == if n < Set::new(|w: Seq<char>| self.count_of(w) > 0).len() {
                n as int
            } else {
                Set::new(|w: Seq<char>| self.count_of(w) > 0).len() as int
            },
            forall|j: int|
                0 <= j < r@.len() ==> self.searched(#[trigger] r@[j].0@) && self.count_of(r@[j].0@)
                    == r@[j].1,
            forall|a: int, b: int| 0 <= a < b < r@.len() ==> r@[a].0@ != r@[b].0@,
            forall|a: int, b: int| 0 <= a < b < r@.len() ==> r@[a].1 >= r@[b].1,
            forall|w: Seq<char>, j: int|
                #![trigger self.count_of(w), r@[j]]
                self.searched(w) && 0 <= j < r@.len() && !(exists|k: int|
                    0 <= k < r@.len() && #[trigger] r@[k].0@ == w) ==> self.count_of(w) <= r@[j].1,
    {
        let mut keys: Vec<usize> = Vec::new();
        let mut i: usize = 0;
        while i < self.counts.len()
            invariant
                0 <= i <= self.counts@.len(),
                keys@.len() == i,
                forall|j: int| 0 <= j < i ==> #[trigger] keys@[j] == self.counts@[j].1,
            decreases self.counts@.len() - i,
        {
            keys.push(self.counts[i].1);
            i += 1;
        }
        let order = rank_desc(&keys);
        let m = if n < self.counts.len() { n } else { self.counts.len() };
        let mut r: Vec<(String, usize)> = Vec::new();
        let mut t: usize = 0;
        while t < m
            invariant
                0 <= t <= m,
                m <= order@.len(),
                order@.len() == self.counts@.len(),
                forall|j: int| 0 <= j < order@.len() ==> #[trigger] order@[j] < self.counts@.len(),
                r@.len() == t,
                forall|j: int| 0 <= j < t ==> #[trigger] r@[j].0@ == self.counts@[order@[j] as int].0@
                    && r@[j].1 == self.counts@[order@[j] as int].1,
            decreases m - t,
        {
            let e = order[t];
            r.push((self.counts[e].0.clone(), self.counts[e].1));
            t += 1;
        }
        proof {
            self.lemma_searched_words();
            assert(self.tallies().len() == self.counts@.len());
            assert forall|j: int|
                0 <= j < r@.len() implies self.searched(#[trigger] r@[j].0@) && self.count_of(r@[j].0@)
                    == r@[j].1 by {
                self.lemma_count_at(order@[j] as int);
            }
            assert forall|a: int, b: int| 0 <= a < b < r@.len() implies r@[a].0@ != r@[b].0@ by {
                let ea = order@[a] as int;
                let eb = order@[b] as int;
                assert(r@[a].0@ == self.counts@[ea].0@);
                assert(r@[b].0@ == self.counts@[eb].0@);
                if ea < eb {
                    assert(self.counts@[ea].0@ != self.counts@[eb].0@);
                } else {
                    assert(self.counts@[eb].0@ != self.counts@[ea].0@);
                }
            }
            assert forall|a: int, b: int| 0 <= a < b < r@.len() implies r@[a].1 >= r@[b].1 by {
                assert(keys@[order@[a] as int] >= keys@[order@[b] as int]);
            }
            assert forall|w: Seq<char>, j: int|
                #![trigger self.count_of(w), r@[j]]
                self.searched(w) && 0 <= j < r@.len() && !(exists|k: int|
                    0 <= k < r@.len() && #[trigger] r@[k].0@ == w) implies self.count_of(w) <= r@[j].1 by {
                let ts = self.tallies();
                let i = choose|i: int| 0 <= i < ts.len() && #[trigger] ts[i].0 == w;
                assert(self.counts@[i].0@ == w);
                self.lemma_count_at(i);
                assert(placed(order@, i));
                let pos = choose|pos: int| 0 <= pos < order@.len() && order@[pos] == i;
                if pos < m {
                    assert(r@[pos].0@ == w);
                }
                assert(j < pos);
                assert(keys@[order@[j] as int] >= keys@[order@[pos] as int]);
                assert(r@[j].0@ == self.counts@[order@[j] as int].0@);
                assert(r@[j].1 == keys@[order@[j] as int]);
                assert(keys@[order@[pos] as int] == self.counts@[i].1);
            }
        }
        r
    }
}

} // verus!
