//! The inverted-index store that each barrel holds: pages by URL, the posting
//! list of each word, the words of each page, and the link graph.
use crate::page::Page;
use crate::ranking::{placed, rank_desc};
use crate::relation::Relation;
use crate::text::{lower_of, lowercase};
use vstd::prelude::*;

verus! {

/// The lowercase forms of a list of words.
pub open spec fn lowered(words: Seq<String>) -> Seq<Seq<char>> {
    words.map_values(|w: String| lower_of(w@))
}

/// `w` is the lowercase form of one of `words`.
pub open spec fn among(words: Seq<String>, w: Seq<char>) -> bool {
    exists|j: int| 0 <= j < words.len() && w == lower_of(#[trigger] words[j]@)
}

/// `u` is one of the given URLs.
pub open spec fn listed(urls: Seq<String>, u: Seq<char>) -> bool {
    exists|j: int| 0 <= j < urls.len() && #[trigger] urls[j]@ == u
}

/// The six persisted parts of an index store, as plain lists.
pub struct IndexSnapshot {
    /// The indexed pages.
    pub indexed_pages: Vec<Page>,
    /// The page recorded for each URL.
    pub url2pages: Vec<Page>,
    /// `(word, url)`: `url` is in the posting list of `word`.
    pub index: Vec<(String, String)>,
    /// `(url, word)`: `word` is among the words of the page at `url`.
    pub invert_index: Vec<(String, String)>,
    /// `(url, source)`: `source` links to `url`.
    pub backlinks: Vec<(String, String)>,
    /// `(url, target)`: the page at `url` links to `target`.
    pub outlinks: Vec<(String, String)>,
}

/// Pages, posting lists, page words and links of one barrel.
pub struct IndexStore {
    indexed_pages: Vec<Page>,
    url2pages: Vec<Page>,
    index: Relation,
    invert_index: Relation,
    backlinks: Relation,
    outlinks: Relation,
    filepath: String,
    size_bytes: usize,
}

impl IndexStore {
    /// `u` is in the posting list of `w`.
    pub closed spec fn forward(&self, w: Seq<char>, u: Seq<char>) -> bool {
        self.index.has(w, u)
    }

    /// `w` is among the words of the page at `u`.
    pub closed spec fn inverted(&self, u: Seq<char>, w: Seq<char>) -> bool {
        self.invert_index.has(u, w)
    }

    /// The page at `u` links to `o`.
    pub closed spec fn outlink(&self, u: Seq<char>, o: Seq<char>) -> bool {
        self.outlinks.has(u, o)
    }

    /// The page at `u` is linked to from `o`.
    pub closed spec fn backlink(&self, u: Seq<char>, o: Seq<char>) -> bool {
        self.backlinks.has(u, o)
    }

    /// How many pages link to `u`.
    pub closed spec fn backlink_count(&self, u: Seq<char>) -> nat {
        self.backlinks.spec_count(u)
    }

    /// `p` is the page recorded for the URL `u`.
    pub closed spec fn page_at(&self, u: Seq<char>, p: Page) -> bool {
        exists|i: int|
            #![trigger self.url2pages@[i]]
            0 <= i < self.url2pages@.len() && self.url2pages@[i].url@ == u && self.url2pages@[i]
                == p
    }

    /// A page is recorded for the URL `u`.
    pub closed spec fn knows(&self, u: Seq<char>) -> bool {
        exists|i: int|
            #![trigger self.url2pages@[i]]
            0 <= i < self.url2pages@.len() && self.url2pages@[i].url@ == u
    }

    /// The set of indexed pages, one record per page.
    pub closed spec fn indexed(&self) -> Seq<Page> {
        self.indexed_pages@
    }

    /// The file that the store is saved to.
    pub closed spec fn spec_filepath(&self) -> Seq<char> {
        self.filepath@
    }

    /// The size in bytes of the last snapshot read or written.
    pub closed spec fn spec_size_bytes(&self) -> usize {
        self.size_bytes
    }

    /// The store's invariant: no duplicates, one page per URL, the two
    /// indexes and the two link maps are mutual inverses, and every page
    /// that has words or links has a record.
    pub closed spec fn wf(&self) -> bool {
        &&& self.index.wf()
        &&& self.invert_index.wf()
        &&& self.backlinks.wf()
        &&& self.outlinks.wf()
        &&& forall|i: int, j: int|
            #![trigger self.url2pages@[i], self.url2pages@[j]]
            0 <= i < j < self.url2pages@.len() ==> self.url2pages@[i].url@
                != self.url2pages@[j].url@
        &&& forall|i: int, j: int|
            #![trigger self.indexed_pages@[i], self.indexed_pages@[j]]
            0 <= i < j < self.indexed_pages@.len() ==> !self.indexed_pages@[i].same_page(
                &self.indexed_pages@[j],
            )
        &&& forall|w: Seq<char>, u: Seq<char>|
            #[trigger] self.index.has(w, u) <==> #[trigger] self.invert_index.has(u, w)
        &&& forall|u: Seq<char>, o: Seq<char>|
            #[trigger] self.outlinks.has(u, o) <==> #[trigger] self.backlinks.has(o, u)
        &&& forall|w: Seq<char>, u: Seq<char>| #[trigger] self.index.has(w, u) ==> self.knows(u)
        &&& forall|u: Seq<char>, o: Seq<char>| #[trigger] self.outlinks.has(u, o) ==> self.knows(u)
    }

    /// The two stores hold the same pages, posting lists, page words and
    /// links: they agree on everything that a snapshot persists.
    pub open spec fn agrees_with(&self, other: &IndexStore) -> bool {
        &&& self.indexed() == other.indexed()
        &&& forall|u: Seq<char>, p: Page| #[trigger] self.page_at(u, p) == other.page_at(u, p)
        &&& forall|u: Seq<char>| #[trigger] self.knows(u) == other.knows(u)
        &&& forall|a: Seq<char>, b: Seq<char>| #[trigger] self.forward(a, b) == other.forward(a, b)
        &&& forall|a: Seq<char>, b: Seq<char>| #[trigger] self.inverted(a, b) == other.inverted(a, b)
        &&& forall|a: Seq<char>, b: Seq<char>| #[trigger] self.outlink(a, b) == other.outlink(a, b)
        &&& forall|a: Seq<char>, b: Seq<char>| #[trigger] self.backlink(a, b) == other.backlink(a, b)
        &&& forall|u: Seq<char>| #[trigger] self.backlink_count(u) == other.backlink_count(u)
    }

    /// `u` is in the posting list of every word of `lwords`, and there is at
    /// least one word.
    pub open spec fn matches(&self, lwords: Seq<Seq<char>>, u: Seq<char>) -> bool {
        lwords.len() > 0 && forall|k: int| 0 <= k < lwords.len() ==> self.forward(#[trigger] lwords[k], u)
    }

    /// An empty store bound to `filepath`.
    pub fn new(filepath: String) -> (r: IndexStore)
        ensures
            r.wf(),
            r.spec_filepath() == filepath@,
            r.spec_size_bytes() == 0,
            r.indexed().len() == 0,
            forall|u: Seq<char>| !r.knows(u),
            forall|u: Seq<char>, p: Page| !r.page_at(u, p),
            forall|a: Seq<char>, b: Seq<char>|
                !r.forward(a, b) && !r.inverted(a, b) && !r.outlink(a, b) && !r.backlink(a, b),
    {
        IndexStore {
            indexed_pages: Vec::new(),
            url2pages: Vec::new(),
            index: Relation::new(),
            invert_index: Relation::new(),
            backlinks: Relation::new(),
            outlinks: Relation::new(),
            filepath,
            size_bytes: 0,
        }
    }
    /// Adds each lowercased word of `words` to the page at `url`, in both
    /// indexes.
    fn add_words(&mut self, url: &String, words: &Vec<String>)
        requires
            old(self).wf(),
            old(self).knows(url@),
        ensures
            final(self).wf(),
            final(self).url2pages == old(self).url2pages,
            final(self).indexed_pages == old(self).indexed_pages,
            final(self).backlinks == old(self).backlinks,
            final(self).outlinks == old(self).outlinks,
            final(self).filepath == old(self).filepath,
            final(self).size_bytes == old(self).size_bytes,
            forall|w: Seq<char>, u: Seq<char>|
                #[trigger] final(self).index.has(w, u) <==> old(self).index.has(w, u) || (u == url@
                    && among(words@, w)),
    {
        let ghost start = *self;
        let mut i: usize = 0;
        while i < words.len()
            invariant
                0 <= i <= words@.len(),
                self.wf(),
                self.knows(url@),
                self.url2pages == start.url2pages,
                self.indexed_pages == start.indexed_pages,
                self.backlinks == start.backlinks,
                self.outlinks == start.outlinks,
                self.filepath == start.filepath,
                self.size_bytes == start.size_bytes,
                forall|w: Seq<char>, u: Seq<char>|
                    #[trigger] self.index.has(w, u) <==> start.index.has(w, u) || (u == url@
                        && exists|j: int| 0 <= j < i && w == lower_of(#[trigger] words@[j]@)),
            decreases words@.len() - i,
        {
            let word = lowercase(words[i].as_str());
            let ghost before = *self;
            self.index.insert(&word, url);
            self.invert_index.insert(url, &word);
            proof {
                assert forall|w: Seq<char>, u: Seq<char>|
                    #[trigger] self.index.has(w, u) <==> start.index.has(w, u) || (u == url@
                        && exists|j: int| 0 <= j < i + 1 && w == lower_of(#[trigger] words@[j]@)) by {
                    if u == url@ && w == word@ {
                        assert(w == lower_of(words@[i as int]@));
                    }
                    if u == url@ && exists|j: int| 0 <= j < i + 1 && w == lower_of(#[trigger] words@[j]@) {
                        let j = choose|j: int| 0 <= j < i + 1 && w == lower_of(#[trigger] words@[j]@);
                        if j < i {
                            assert(before.index.has(w, u));
                        }
                    }
                }
                assert forall|w: Seq<char>, u: Seq<char>|
                    #[trigger] self.index.has(w, u) <==> #[trigger] self.invert_index.has(u, w) by {
                    assert(before.index.has(w, u) <==> before.invert_index.has(u, w));
                }
                assert forall|u: Seq<char>| #[trigger] self.knows(u) == before.knows(u) by {}
                assert forall|w: Seq<char>, u: Seq<char>| #[trigger] self.index.has(w, u) implies self.knows(u) by {
                    if before.index.has(w, u) {
                        assert(before.knows(u));
                    }
                }
                assert forall|u: Seq<char>, o: Seq<char>| #[trigger] self.outlinks.has(u, o) implies self.knows(u) by {
                    assert(before.knows(u));
                }
            }
            i += 1;
        }
    }
    /// Records that the page at `url` links to each of `links`, in both link
    /// maps.
    fn add_links(&mut self, url: &String, links: &Vec<String>)
        requires
            old(self).wf(),
            old(self).knows(url@),
        ensures
            final(self).wf(),
            final(self).url2pages == old(self).url2pages,
            final(self).indexed_pages == old(self).indexed_pages,
            final(self).index == old(self).index,
            final(self).invert_index == old(self).invert_index,
            final(self).filepath == old(self).filepath,
            final(self).size_bytes == old(self).size_bytes,
            forall|u: Seq<char>, o: Seq<char>|
                #[trigger] final(self).outlinks.has(u, o) <==> old(self).outlinks.has(u, o) || (u
                    == url@ && listed(links@, o)),
    {
        let ghost start = *self;
        let mut i: usize = 0;
        while i < links.len()
            invariant
                0 <= i <= links@.len(),
                self.wf(),
                self.knows(url@),
                self.url2pages == start.url2pages,
                self.indexed_pages == start.indexed_pages,
                self.index == start.index,
                self.invert_index == start.invert_index,
                self.filepath == start.filepath,
                self.size_bytes == start.size_bytes,
                forall|u: Seq<char>, o: Seq<char>|
                    #[trigger] self.outlinks.has(u, o) <==> start.outlinks.has(u, o) || (u == url@
                        && exists|j: int| 0 <= j < i && #[trigger] links@[j]@ == o),
            decreases links@.len() - i,
        {
            let ghost before = *self;
            self.outlinks.insert(url, &links[i]);
            self.backlinks.insert(&links[i], url);
            proof {
                assert forall|u: Seq<char>, o: Seq<char>|
                    #[trigger] self.outlinks.has(u, o) <==> start.outlinks.has(u, o) || (u == url@
                        && exists|j: int| 0 <= j < i + 1 && #[trigger] links@[j]@ == o) by {
                    if u == url@ && o == links@[i as int]@ {
                        assert(links@[i as int]@ == o);
                    }
                    if u == url@ && exists|j: int| 0 <= j < i + 1 && #[trigger] links@[j]@ == o {
                        let j = choose|j: int| 0 <= j < i + 1 && #[trigger] links@[j]@ == o;
                        if j < i {
                            assert(before.outlinks.has(u, o));
                        }
                    }
                }
                assert forall|u: Seq<char>, o: Seq<char>|
                    #[trigger] self.outlinks.has(u, o) <==> #[trigger] self.backlinks.has(o, u) by {
                    assert(before.outlinks.has(u, o) <==> before.backlinks.has(o, u));
                }
                assert forall|u: Seq<char>| #[trigger] self.knows(u) == before.knows(u) by {}
                assert forall|w: Seq<char>, u: Seq<char>| #[trigger] self.index.has(w, u) implies self.knows(u) by {
                    assert(before.knows(u));
                }
                assert forall|u: Seq<char>, o: Seq<char>| #[trigger] self.outlinks.has(u, o) implies self.knows(u) by {
                    if before.outlinks.has(u, o) {
                        assert(before.knows(u));
                    }
                }
            }
            i += 1;
        }
    }

    /// Records `page` for its URL, replacing an earlier record, and adds it to
    /// the indexed pages unless the same page is there already.
    fn record_page(&mut self, page: &Page)
        requires
            old(self).wf(),
        ensures
            final(self).wf(),
            final(self).index == old(self).index,
            final(self).invert_index == old(self).invert_index,
            final(self).backlinks == old(self).backlinks,
            final(self).outlinks == old(self).outlinks,
            final(self).filepath == old(self).filepath,
            final(self).size_bytes == old(self).size_bytes,
            forall|u: Seq<char>, p: Page|
                #[trigger] final(self).page_at(u, p) <==> if u == page.url@ {
                    p == *page
                } else {
                    old(self).page_at(u, p)
                },
            forall|u: Seq<char>|
                #[trigger] final(self).knows(u) <==> u == page.url@ || old(self).knows(u),
            (exists|i: int|
                0 <= i < old(self).indexed_pages@.len() && #[trigger] old(self).indexed_pages@[i].same_page(page))
                ==> final(self).indexed_pages@ == old(self).indexed_pages@,
            !(exists|i: int|
                0 <= i < old(self).indexed_pages@.len() && #[trigger] old(self).indexed_pages@[i].same_page(page))
                ==> final(self).indexed_pages@ == old(self).indexed_pages@.push(*page),
    {
        let ghost start = *self;
        // the record for the URL
        let mut i: usize = 0;
        while i < self.url2pages.len() && !(self.url2pages[i].url == page.url)
            invariant
                0 <= i <= self.url2pages@.len(),
                *self == start,
                forall|j: int| 0 <= j < i ==> #[trigger] self.url2pages@[j].url@ != page.url@,
            decreases self.url2pages@.len() - i,
        {
            i += 1;
        }
        if i < self.url2pages.len() {
            assert(start.url2pages@[i as int].url@ == page.url@);
            self.url2pages.set(i, page.duplicate());
            proof {
                assert forall|u: Seq<char>, p: Page|
                    #[trigger] self.page_at(u, p) <==> if u == page.url@ {
                        p == *page
                    } else {
                        start.page_at(u, p)
                    } by {
                    if self.page_at(u, p) {
                        let k = choose|k: int|
                            #![trigger self.url2pages@[k]]
                            0 <= k < self.url2pages@.len() && self.url2pages@[k].url@ == u
                                && self.url2pages@[k] == p;
                        if k != i {
                            assert(start.url2pages@[k] == self.url2pages@[k]);
                        }
                    }
                    if u == page.url@ && p == *page {
                        assert(self.url2pages@[i as int] == p);
                    }
                    if u != page.url@ && start.page_at(u, p) {
                        let k = choose|k: int|
                            #![trigger start.url2pages@[k]]
                            0 <= k < start.url2pages@.len() && start.url2pages@[k].url@ == u
                                && start.url2pages@[k] == p;
                        assert(self.url2pages@[k] == start.url2pages@[k]);
                    }
                }
                assert forall|u: Seq<char>|
                    #[trigger] self.knows(u) <==> u == page.url@ || start.knows(u) by {
                    if self.knows(u) {
                        let k = choose|k: int|
                            #![trigger self.url2pages@[k]]
                            0 <= k < self.url2pages@.len() && self.url2pages@[k].url@ == u;
                        if k != i {
                            assert(start.url2pages@[k] == self.url2pages@[k]);
                        }
                    }
                    if u == page.url@ {
                        assert(self.url2pages@[i as int].url@ == u);
                    }
                    if start.knows(u) {
                        let k = choose|k: int|
                            #![trigger start.url2pages@[k]]
                            0 <= k < start.url2pages@.len() && start.url2pages@[k].url@ == u;
                        if k != i {
                            assert(self.url2pages@[k] == start.url2pages@[k]);
                        } else {
                            assert(self.url2pages@[i as int].url@ == u);
                        }
                    }
                }
                assert forall|a: int, b: int|
                    #![trigger self.url2pages@[a], self.url2pages@[b]]
                    0 <= a < b < self.url2pages@.len() implies self.url2pages@[a].url@
                        != self.url2pages@[b].url@ by {
                    assert(start.url2pages@[a].url@ != start.url2pages@[b].url@);
                }
            }
        } else {
            self.url2pages.push(page.duplicate());
            proof {
                let n = start.url2pages@.len() as int;
                assert forall|u: Seq<char>, p: Page|
                    #[trigger] self.page_at(u, p) <==> if u == page.url@ {
                        p == *page
                    } else {
                        start.page_at(u, p)
                    } by {
                    if self.page_at(u, p) {
                        let k = choose|k: int|
                            #![trigger self.url2pages@[k]]
                            0 <= k < self.url2pages@.len() && self.url2pages@[k].url@ == u
                                && self.url2pages@[k] == p;
                        if k != n {
                            assert(start.url2pages@[k] == self.url2pages@[k]);
                        }
                    }
                    if u == page.url@ && p == *page {
                        assert(self.url2pages@[n] == p);
                    }
                    if u != page.url@ && start.page_at(u, p) {
                        let k = choose|k: int|
                            #![trigger start.url2pages@[k]]
                            0 <= k < start.url2pages@.len() && start.url2pages@[k].url@ == u
                                && start.url2pages@[k] == p;
                        assert(self.url2pages@[k] == start.url2pages@[k]);
                    }
                }
                assert forall|u: Seq<char>|
                    #[trigger] self.knows(u) <==> u == page.url@ || start.knows(u) by {
                    if self.knows(u) {
                        let k = choose|k: int|
                            #![trigger self.url2pages@[k]]
                            0 <= k < self.url2pages@.len() && self.url2pages@[k].url@ == u;
                        if k != n {
                            assert(start.url2pages@[k] == self.url2pages@[k]);
                        }
                    }
                    if u == page.url@ {
                        assert(self.url2pages@[n].url@ == u);
                    }
                    if start.knows(u) {
                        let k = choose|k: int|
                            #![trigger start.url2pages@[k]]
                            0 <= k < start.url2pages@.len() && start.url2pages@[k].url@ == u;
                        assert(self.url2pages@[k] == start.url2pages@[k]);
                    }
                }
                assert forall|a: int, b: int|
                    #![trigger self.url2pages@[a], self.url2pages@[b]]
                    0 <= a < b < self.url2pages@.len() implies self.url2pages@[a].url@
                        != self.url2pages@[b].url@ by {
                    if b == n {
                        assert(self.url2pages@[a] == start.url2pages@[a]);
                    } else {
                        assert(start.url2pages@[a].url@ != start.url2pages@[b].url@);
                    }
                }
            }
        }
        // the set of indexed pages
        let ghost mid = *self;
        let mut k: usize = 0;
        while k < self.indexed_pages.len() && !(self.indexed_pages[k] == *page)
            invariant
                0 <= k <= self.indexed_pages@.len(),
                *self == mid,
                forall|j: int| 0 <= j < k ==> !(#[trigger] self.indexed_pages@[j].same_page(page)),
            decreases self.indexed_pages@.len() - k,
        {
            k += 1;
        }
        if k == self.indexed_pages.len() {
            self.indexed_pages.push(page.duplicate());
            proof {
                let n = mid.indexed_pages@.len() as int;
                assert forall|a: int, b: int|
                    #![trigger self.indexed_pages@[a], self.indexed_pages@[b]]
                    0 <= a < b < self.indexed_pages@.len() implies !self.indexed_pages@[a].same_page(
                        &self.indexed_pages@[b],
                    ) by {
                    if b == n {
                        assert(self.indexed_pages@[a] == mid.indexed_pages@[a]);
                        assert(!mid.indexed_pages@[a].same_page(page));
                    } else {
                        assert(!mid.indexed_pages@[a].same_page(&mid.indexed_pages@[b]));
                    }
                }
            }
        } else {
            assert(self.indexed_pages@[k as int].same_page(page));
        }
        proof {
            assert(self.url2pages@ == mid.url2pages@);
            assert forall|u: Seq<char>, p: Page| #[trigger] self.page_at(u, p) == mid.page_at(u, p) by {
                if mid.page_at(u, p) {
                    let j = choose|j: int|
                        #![trigger mid.url2pages@[j]]
                        0 <= j < mid.url2pages@.len() && mid.url2pages@[j].url@ == u
                            && mid.url2pages@[j] == p;
                    assert(self.url2pages@[j] == p);
                }
            }
            assert forall|u: Seq<char>| #[trigger] self.knows(u) == mid.knows(u) by {
                if mid.knows(u) {
                    let j = choose|j: int|
                        #![trigger mid.url2pages@[j]]
                        0 <= j < mid.url2pages@.len() && mid.url2pages@[j].url@ == u;
                    assert(self.url2pages@[j].url@ == u);
                }
            }
            assert forall|w: Seq<char>, u: Seq<char>| #[trigger] self.index.has(w, u) implies self.knows(u) by {
                assert(start.knows(u));
            }
            assert forall|u: Seq<char>, o: Seq<char>| #[trigger] self.outlinks.has(u, o) implies self.knows(u) by {
                assert(start.knows(u));
            }
        }
    }
    /// Adds a page with its words and outlinks; set-union semantics, nothing
    /// is removed. Each word is indexed in lowercase.
    pub fn store(&mut self, page: &Page, words: &Vec<String>, outlinks: &Vec<String>)
        requires
            old(self).wf(),
        ensures
            final(self).wf(),
            forall|w: Seq<char>, u: Seq<char>|
                #[trigger] final(self).forward(w, u) <==> old(self).forward(w, u) || (u
                    == page.url@ && among(words@, w)),
            forall|u: Seq<char>, w: Seq<char>|
                #[trigger] final(self).inverted(u, w) <==> old(self).inverted(u, w) || (u
                    == page.url@ && among(words@, w)),
            forall|u: Seq<char>, o: Seq<char>|
                #[trigger] final(self).outlink(u, o) <==> old(self).outlink(u, o) || (u
                    == page.url@ && listed(outlinks@, o)),
            forall|o: Seq<char>, u: Seq<char>|
                #[trigger] final(self).backlink(o, u) <==> old(self).backlink(o, u) || (u
                    == page.url@ && listed(outlinks@, o)),
            forall|u: Seq<char>, p: Page|
                #[trigger] final(self).page_at(u, p) <==> if u == page.url@ {
                    p == *page
                } else {
                    old(self).page_at(u, p)
                },
            forall|u: Seq<char>|
                #[trigger] final(self).knows(u) <==> u == page.url@ || old(self).knows(u),
            (exists|i: int|
                0 <= i < old(self).indexed().len() && #[trigger] old(self).indexed()[i].same_page(page))
                ==> final(self).indexed() == old(self).indexed(),
            !(exists|i: int|
                0 <= i < old(self).indexed().len() && #[trigger] old(self).indexed()[i].same_page(page))
                ==> final(self).indexed() == old(self).indexed().push(*page),
            final(self).spec_filepath() == old(self).spec_filepath(),
            final(self).spec_size_bytes() == old(self).spec_size_bytes(),
    {
        let ghost start = *self;
        self.record_page(page);
        let ghost s1 = *self;
        self.add_words(&page.url, words);
        let ghost s2 = *self;
        self.add_links(&page.url, outlinks);
        proof {
            assert forall|u: Seq<char>, w: Seq<char>|
                #[trigger] self.inverted(u, w) <==> start.inverted(u, w) || (u == page.url@
                    && among(words@, w)) by {
                assert(self.invert_index.has(u, w) <==> self.index.has(w, u));
                assert(start.invert_index.has(u, w) <==> start.index.has(w, u));
            }
            assert forall|o: Seq<char>, u: Seq<char>|
                #[trigger] self.backlink(o, u) <==> start.backlink(o, u) || (u == page.url@
                    && listed(outlinks@, o)) by {
                assert(self.backlinks.has(o, u) <==> self.outlinks.has(u, o));
                assert(start.backlinks.has(o, u) <==> start.outlinks.has(u, o));
            }
            assert forall|u: Seq<char>, p: Page| #[trigger] self.page_at(u, p) == s1.page_at(u, p) by {}
            assert forall|u: Seq<char>| #[trigger] self.knows(u) == s1.knows(u) by {}
        }
    }
    /// Whether `url` is in the posting list of every word of `lwords`.
    fn in_all_postings(&self, lwords: &Vec<String>, url: &String) -> (r: bool)
        ensures
            r == forall|k: int| 0 <= k < lwords@.len() ==> self.forward(#[trigger] lwords@[k]@, url@),
    {
        let mut k: usize = 0;
        while k < lwords.len()
            invariant
                0 <= k <= lwords@.len(),
                forall|m: int| 0 <= m < k ==> self.forward(#[trigger] lwords@[m]@, url@),
            decreases lwords@.len() - k,
        {
            if !self.index.contains(&lwords[k], url) {
                return false;
            }
            k += 1;
        }
        true
    }

    /// The pages whose URL is in the posting list of every word, the words
    /// compared in lowercase; nothing for an empty list of words.
    pub fn search(&self, words: &Vec<String>) -> (r: Vec<Page>)
        requires
            self.wf(),
        ensures
            forall|j: int|
                0 <= j < r@.len() ==> self.page_at(r@[j].url@, #[trigger] r@[j]) && self.matches(
                    lowered(words@),
                    r@[j].url@,
                ),
            forall|u: Seq<char>, p: Page|
                self.page_at(u, p) && self.matches(lowered(words@), u) ==> exists|j: int|
                    0 <= j < r@.len() && #[trigger] r@[j] == p,
            forall|u: Seq<char>|
                self.matches(lowered(words@), u) ==> exists|j: int|
                    0 <= j < r@.len() && #[trigger] r@[j].url@ == u,
            forall|a: int, b: int| 0 <= a < b < r@.len() ==> r@[a].url@ != r@[b].url@,
            words@.len() == 0 ==> r@.len() == 0,
    {
        let mut r: Vec<Page> = Vec::new();
        if words.len() == 0 {
            return r;
        }
        let mut lwords: Vec<String> = Vec::new();
        let mut k: usize = 0;
        while k < words.len()
            invariant
                0 <= k <= words@.len(),
                lwords@.len() == k,
                forall|m: int| 0 <= m < k ==> #[trigger] lwords@[m]@ == lower_of(words@[m]@),
            decreases words@.len() - k,
        {
            lwords.push(lowercase(words[k].as_str()));
            k += 1;
        }
        let ghost lw = lowered(words@);
        assert forall|u: Seq<char>|
            self.matches(lw, u) == (forall|m: int| 0 <= m < lwords@.len() ==> self.forward(#[trigger] lwords@[m]@, u)) by {
            if forall|m: int| 0 <= m < lwords@.len() ==> self.forward(#[trigger] lwords@[m]@, u) {
                assert forall|m: int| 0 <= m < lw.len() implies self.forward(#[trigger] lw[m], u) by {
                    assert(lwords@[m]@ == lw[m]);
                }
            }
            if self.matches(lw, u) {
                assert forall|m: int| 0 <= m < lwords@.len() implies self.forward(#[trigger] lwords@[m]@, u) by {
                    assert(lwords@[m]@ == lw[m]);
                }
            }
        }
        let ghost mut idx: Seq<int> = Seq::empty();
        let mut i: usize = 0;
        while i < self.url2pages.len()
            invariant
                0 <= i <= self.url2pages@.len(),
                self.wf(),
                lw == lowered(words@),
                lw.len() > 0,
                forall|u: Seq<char>|
                    self.matches(lw, u) == (forall|m: int| 0 <= m < lwords@.len() ==> self.forward(#[trigger] lwords@[m]@, u)),
                idx.len() == r@.len(),
                forall|j: int|
                    #![trigger idx[j]]
                    0 <= j < r@.len() ==> 0 <= idx[j] < i && r@[j] == self.url2pages@[idx[j]]
                        && self.matches(lw, r@[j].url@),
                forall|a: int, b: int| 0 <= a < b < r@.len() ==> idx[a] < idx[b],
                forall|m: int|
                    #![trigger self.url2pages@[m]]
                    0 <= m < i && self.matches(lw, self.url2pages@[m].url@) ==> exists|j: int|
                        0 <= j < r@.len() && #[trigger] r@[j] == self.url2pages@[m],
            decreases self.url2pages@.len() - i,
        {
            if self.in_all_postings(&lwords, &self.url2pages[i].url) {
                let ghost old_r = r@;
                r.push(self.url2pages[i].duplicate());
                proof {
                    idx = idx.push(i as int);
                    let n = old_r.len() as int;
                    assert forall|j: int| 0 <= j < old_r.len() implies r@[j] == old_r[j] by {}
                    assert forall|m: int|
                        #![trigger self.url2pages@[m]]
                        0 <= m < i + 1 && self.matches(lw, self.url2pages@[m].url@) implies exists|j: int|
                        0 <= j < r@.len() && #[trigger] r@[j] == self.url2pages@[m] by {
                        if m < i {
                            let j = choose|j: int| 0 <= j < old_r.len() && #[trigger] old_r[j] == self.url2pages@[m];
                            assert(r@[j] == self.url2pages@[m]);
                        } else {
                            assert(r@[n] == self.url2pages@[m]);
                        }
                    }
                }
            }
            i += 1;
        }
        proof {
            assert forall|j: int|
                0 <= j < r@.len() implies self.page_at(r@[j].url@, #[trigger] r@[j])
                    && self.matches(lowered(words@), r@[j].url@) by {
                let m = idx[j];
                assert(self.url2pages@[m] == r@[j]);
            }
            assert forall|u: Seq<char>, p: Page|
                self.page_at(u, p) && self.matches(lw, u) implies exists|j: int|
                    0 <= j < r@.len() && #[trigger] r@[j] == p by {
                let m = choose|m: int|
                    #![trigger self.url2pages@[m]]
                    0 <= m < self.url2pages@.len() && self.url2pages@[m].url@ == u && self.url2pages@[m] == p;
                assert(self.url2pages@[m] == p);
            }
            assert forall|a: int, b: int| 0 <= a < b < r@.len() implies r@[a].url@ != r@[b].url@ by {
                let ia = idx[a];
                let ib = idx[b];
                assert(self.url2pages@[ia].url@ != self.url2pages@[ib].url@);
            }
            assert forall|u: Seq<char>|
                self.matches(lw, u) implies exists|j: int| 0 <= j < r@.len() && #[trigger] r@[j].url@ == u by {
                assert(self.forward(lw[0], u));
                assert(self.index.has(lw[0], u));
                let m = choose|m: int|
                    #![trigger self.url2pages@[m]]
                    0 <= m < self.url2pages@.len() && self.url2pages@[m].url@ == u;
                assert(self.page_at(u, self.url2pages@[m]));
                let j = choose|j: int| 0 <= j < r@.len() && #[trigger] r@[j] == self.url2pages@[m];
                assert(r@[j].url@ == u);
            }
        }
        r
    }
    /// The result of `search`, ordered by the number of backlinks of each
    /// page, most first.
    pub fn search_by_relevance(&self, words: &Vec<String>) -> (r: Vec<Page>)
        requires
            self.wf(),
        ensures
            forall|j: int|
                0 <= j < r@.len() ==> self.page_at(r@[j].url@, #[trigger] r@[j]) && self.matches(
                    lowered(words@),
                    r@[j].url@,
                ),
            forall|u: Seq<char>, p: Page|
                self.page_at(u, p) && self.matches(lowered(words@), u) ==> exists|j: int|
                    0 <= j < r@.len() && #[trigger] r@[j] == p,
            forall|u: Seq<char>|
                self.matches(lowered(words@), u) ==> exists|j: int|
                    0 <= j < r@.len() && #[trigger] r@[j].url@ == u,
            forall|a: int, b: int| 0 <= a < b < r@.len() ==> r@[a].url@ != r@[b].url@,
            words@.len() == 0 ==> r@.len() == 0,
            forall|a: int, b: int|
                0 <= a < b < r@.len() ==> self.backlink_count(#[trigger] r@[a].url@)
                    >= self.backlink_count(#[trigger] r@[b].url@),
    {
        let found = self.search(words);
        let mut keys: Vec<usize> = Vec::new();
        let mut i: usize = 0;
        while i < found.len()
            invariant
                0 <= i <= found@.len(),
                keys@.len() == i,
                forall|j: int| 0 <= j < i ==> #[trigger] keys@[j] == self.backlink_count(found@[j].url@),
            decreases found@.len() - i,
        {
            keys.push(self.backlinks.count(&found[i].url));
            i += 1;
        }
        let order = rank_desc(&keys);
        let mut r: Vec<Page> = Vec::new();
        let mut t: usize = 0;
        while t < order.len()
            invariant
                0 <= t <= order@.len(),
                order@.len() == found@.len(),
                forall|j: int| 0 <= j < order@.len() ==> #[trigger] order@[j] < found@.len(),
                r@.len() == t,
                forall|j: int| 0 <= j < t ==> #[trigger] r@[j] == found@[order@[j] as int],
            decreases order@.len() - t,
        {
            r.push(found[order[t]].duplicate());
            t += 1;
        }
        proof {
            assert forall|j: int|
                0 <= j < r@.len() implies self.page_at(r@[j].url@, #[trigger] r@[j]) && self.matches(
                    lowered(words@),
                    r@[j].url@,
                ) by {
                let m = order@[j] as int;
                assert(r@[j] == found@[m]);
            }
            assert forall|u: Seq<char>, p: Page|
                self.page_at(u, p) && self.matches(lowered(words@), u) implies exists|j: int|
                    0 <= j < r@.len() && #[trigger] r@[j] == p by {
                let m = choose|m: int| 0 <= m < found@.len() && #[trigger] found@[m] == p;
                assert(placed(order@, m));
                let j = choose|j: int| 0 <= j < order@.len() && order@[j] == m;
                assert(r@[j] == p);
            }
            assert forall|u: Seq<char>|
                self.matches(lowered(words@), u) implies exists|j: int| 0 <= j < r@.len() && #[trigger] r@[j].url@ == u by {
                let m = choose|m: int| 0 <= m < found@.len() && #[trigger] found@[m].url@ == u;
                assert(placed(order@, m));
                let j = choose|j: int| 0 <= j < order@.len() && order@[j] == m;
                assert(r@[j] == found@[m]);
            }
            assert forall|a: int, b: int| 0 <= a < b < r@.len() implies r@[a].url@ != r@[b].url@ by {
                let ma = order@[a] as int;
                let mb = order@[b] as int;
                assert(r@[a] == found@[ma]);
                assert(r@[b] == found@[mb]);
                if ma < mb {
                    assert(found@[ma].url@ != found@[mb].url@);
                } else {
                    assert(found@[mb].url@ != found@[ma].url@);
                }
            }
            assert forall|a: int, b: int|
                0 <= a < b < r@.len() implies self.backlink_count(#[trigger] r@[a].url@)
                    >= self.backlink_count(#[trigger] r@[b].url@) by {
                let ma = order@[a] as int;
                let mb = order@[b] as int;
                assert(r@[a] == found@[ma]);
                assert(r@[b] == found@[mb]);
                assert(keys@[ma] >= keys@[mb]);
            }
        }
        r
    }

    /// The URLs that link to `url`, each once; empty for an unknown URL.
    pub fn consult_backlinks(&self, url: &String) -> (r: Vec<String>)
        requires
            self.wf(),
        ensures
            forall|j: int| 0 <= j < r@.len() ==> self.backlink(url@, #[trigger] r@[j]@),
            forall|o: Seq<char>|
                self.backlink(url@, o) ==> exists|j: int| 0 <= j < r@.len() && #[trigger] r@[j]@ == o,
            forall|a: int, b: int| 0 <= a < b < r@.len() ==> r@[a]@ != r@[b]@,
    {
        self.backlinks.values_of(url)
    }

    /// The URLs that `url` links to, each once; empty for an unknown URL.
    pub fn consult_outlinks(&self, url: &String) -> (r: Vec<String>)
        requires
            self.wf(),
        ensures
            forall|j: int| 0 <= j < r@.len() ==> self.outlink(url@, #[trigger] r@[j]@),
            forall|o: Seq<char>|
                self.outlink(url@, o) ==> exists|j: int| 0 <= j < r@.len() && #[trigger] r@[j]@ == o,
            forall|a: int, b: int| 0 <= a < b < r@.len() ==> r@[a]@ != r@[b]@,
    {
        self.outlinks.values_of(url)
    }
    /// The page recorded for `url`, if any.
    pub fn page_of(&self, url: &String) -> (r: Option<Page>)
        requires
            self.wf(),
        ensures
            r matches Some(p) ==> self.page_at(url@, p),
            r is None ==> !self.knows(url@),
    {
        let mut i: usize = 0;
        while i < self.url2pages.len()
            invariant
                0 <= i <= self.url2pages@.len(),
                forall|j: int| 0 <= j < i ==> #[trigger] self.url2pages@[j].url@ != url@,
            decreases self.url2pages@.len() - i,
        {
            if self.url2pages[i].url == *url {
                let p = self.url2pages[i].duplicate();
                assert(self.url2pages@[i as int] == p);
                return Some(p);
            }
            i += 1;
        }
        None
    }

    /// `snap` holds exactly the persisted parts of this store.
    pub closed spec fn snapshot_is(&self, snap: &IndexSnapshot) -> bool {
        &&& self.indexed_pages@ == snap.indexed_pages@
        &&& self.url2pages@ == snap.url2pages@
        &&& self.index.entries() == snap.index@
        &&& self.invert_index.entries() == snap.invert_index@
        &&& self.backlinks.entries() == snap.backlinks@
        &&& self.outlinks.entries() == snap.outlinks@
    }

    /// The persisted parts of the store; the file path and size are not
    /// among them.
    pub fn snapshot(&self) -> (r: IndexSnapshot)
        ensures
            self.snapshot_is(&r),
    {
        IndexSnapshot {
            indexed_pages: copy_pages(&self.indexed_pages),
            url2pages: copy_pages(&self.url2pages),
            index: self.index.to_pairs(),
            invert_index: self.invert_index.to_pairs(),
            backlinks: self.backlinks.to_pairs(),
            outlinks: self.outlinks.to_pairs(),
        }
    }

    /// The store whose persisted parts are `snap`, bound to `filepath` with
    /// the given size; `None` when `snap` breaks the store's invariant (a
    /// pair or page held twice, two records for one URL, an index or link
    /// map without its inverse, or words or links of a URL without a record). A snapshot of a well-formed store is always
    /// restored.
    pub fn restore(snap: IndexSnapshot, filepath: String, size_bytes: usize) -> (r: Option<IndexStore>)
        ensures
            r matches Some(st) ==> st.wf() && st.snapshot_is(&snap) && st.spec_filepath() == filepath@
                && st.spec_size_bytes() == size_bytes,
            (exists|s: IndexStore| s.wf() && #[trigger] s.snapshot_is(&snap)) ==> r is Some,
    {
        let ghost snap0 = snap;
        let urls_ok = distinct_urls(&snap.url2pages);
        let pages_ok = distinct_pages(&snap.indexed_pages);
        let links_ok = all_recorded(&snap.index, false, &snap.url2pages) && all_recorded(
            &snap.outlinks,
            true,
            &snap.url2pages,
        );
        let IndexSnapshot { indexed_pages, url2pages, index, invert_index, backlinks, outlinks } = snap;
        let index = Relation::from_pairs(index);
        let invert_index = Relation::from_pairs(invert_index);
        let backlinks = Relation::from_pairs(backlinks);
        let outlinks = Relation::from_pairs(outlinks);
        proof {
            if exists|s: IndexStore| s.wf() && #[trigger] s.snapshot_is(&snap0) {
                let s = choose|s: IndexStore| s.wf() && #[trigger] s.snapshot_is(&snap0);
                Relation::lemma_wf_distinct(&s.index);
                Relation::lemma_wf_distinct(&s.invert_index);
                Relation::lemma_wf_distinct(&s.backlinks);
                Relation::lemma_wf_distinct(&s.outlinks);
                assert(urls_ok);
                assert(pages_ok);
                Relation::lemma_entries(&s.index);
                Relation::lemma_entries(&s.outlinks);
                assert forall|i: int| 0 <= i < snap0.index@.len() implies recorded(snap0.url2pages@, (#[trigger] snap0.index@[i]).1@) by {
                    assert(s.index.has(s.index.entries()[i].0@, s.index.entries()[i].1@));
                    assert(s.knows(snap0.index@[i].1@));
                    let k = choose|k: int|
                        #![trigger s.url2pages@[k]]
                        0 <= k < s.url2pages@.len() && s.url2pages@[k].url@ == snap0.index@[i].1@;
                    assert(snap0.url2pages@[k].url@ == snap0.index@[i].1@);
                }
                assert forall|i: int| 0 <= i < snap0.outlinks@.len() implies recorded(snap0.url2pages@, (#[trigger] snap0.outlinks@[i]).0@) by {
                    assert(s.outlinks.has(s.outlinks.entries()[i].0@, s.outlinks.entries()[i].1@));
                    assert(s.knows(snap0.outlinks@[i].0@));
                    let k = choose|k: int|
                        #![trigger s.url2pages@[k]]
                        0 <= k < s.url2pages@.len() && s.url2pages@[k].url@ == snap0.outlinks@[i].0@;
                    assert(snap0.url2pages@[k].url@ == snap0.outlinks@[i].0@);
                }
                assert(links_ok);
                assert(index is Some);
                assert(invert_index is Some);
                assert(backlinks is Some);
                assert(outlinks is Some);
            }
        }
        match (index, invert_index, backlinks, outlinks) {
            (Some(index), Some(invert_index), Some(backlinks), Some(outlinks)) => {
                proof {
                    if exists|s: IndexStore| s.wf() && #[trigger] s.snapshot_is(&snap0) {
                        let s = choose|s: IndexStore| s.wf() && #[trigger] s.snapshot_is(&snap0);
                        Relation::lemma_same_entries(&s.index, &index);
                        Relation::lemma_same_entries(&s.invert_index, &invert_index);
                        Relation::lemma_same_entries(&s.backlinks, &backlinks);
                        Relation::lemma_same_entries(&s.outlinks, &outlinks);
                        assert(forall|a: Seq<char>, b: Seq<char>| #[trigger] index.has(a, b) ==> invert_index.has(b, a));
                        assert(forall|a: Seq<char>, b: Seq<char>| #[trigger] invert_index.has(a, b) ==> index.has(b, a));
                        assert(forall|a: Seq<char>, b: Seq<char>| #[trigger] outlinks.has(a, b) ==> backlinks.has(b, a));
                        assert(forall|a: Seq<char>, b: Seq<char>| #[trigger] backlinks.has(a, b) ==> outlinks.has(b, a));
                    }
                }
                if urls_ok && pages_ok && links_ok && index.mirrored_in(&invert_index) && invert_index.mirrored_in(&index)
                    && outlinks.mirrored_in(&backlinks) && backlinks.mirrored_in(&outlinks) {
                    let st = IndexStore {
                        indexed_pages,
                        url2pages,
                        index,
                        invert_index,
                        backlinks,
                        outlinks,
                        filepath,
                        size_bytes,
                    };
                    proof {
                        Relation::lemma_entries(&st.index);
                        Relation::lemma_entries(&st.outlinks);
                        assert forall|w: Seq<char>, u: Seq<char>| #[trigger] st.index.has(w, u) implies st.knows(u) by {
                            let i = choose|i: int|
                                0 <= i < st.index.entries().len() && #[trigger] st.index.entries()[i].0@ == w
                                    && st.index.entries()[i].1@ == u;
                            assert(recorded(snap0.url2pages@, snap0.index@[i].1@));
                            let k = choose|k: int| 0 <= k < snap0.url2pages@.len() && #[trigger] snap0.url2pages@[k].url@ == u;
                            assert(st.url2pages@[k].url@ == u);
                        }
                        assert forall|u: Seq<char>, o: Seq<char>| #[trigger] st.outlinks.has(u, o) implies st.knows(u) by {
                            let i = choose|i: int|
                                0 <= i < st.outlinks.entries().len() && #[trigger] st.outlinks.entries()[i].0@ == u
                                    && st.outlinks.entries()[i].1@ == o;
                            assert(recorded(snap0.url2pages@, snap0.outlinks@[i].0@));
                            let k = choose|k: int| 0 <= k < snap0.url2pages@.len() && #[trigger] snap0.url2pages@[k].url@ == u;
                            assert(st.url2pages@[k].url@ == u);
                        }
                    }
                    Some(st)
                } else {
                    None
                }
            },
            _ => None,
        }
    }

    /// The number of indexed pages.
    pub fn indexed_count(&self) -> (r: usize)
        ensures
            r == self.indexed().len(),
    {
        self.indexed_pages.len()
    }

    /// The file that the store is saved to.
    pub fn filepath(&self) -> (r: &String)
        ensures
            r@ == self.spec_filepath(),
    {
        &self.filepath
    }

    /// The size in bytes of the last snapshot read or written.
    pub fn size_bytes(&self) -> (r: usize)
        ensures
            r == self.spec_size_bytes(),
    {
        self.size_bytes
    }

    /// Records the size of a snapshot just read or written; nothing else
    /// changes.
    pub fn record_size(&mut self, bytes: usize)
        ensures
            final(self).agrees_with(old(self)),
            final(self).wf() == old(self).wf(),
            final(self).spec_filepath() == old(self).spec_filepath(),
            final(self).spec_size_bytes() == bytes,
    {
        self.size_bytes = bytes;
    }

    /// Binds the store to another file; nothing else changes.
    pub fn set_filepath(&mut self, filepath: String)
        ensures
            final(self).agrees_with(old(self)),
            final(self).wf() == old(self).wf(),
            final(self).spec_filepath() == filepath@,
            final(self).spec_size_bytes() == old(self).spec_size_bytes(),
    {
        self.filepath = filepath;
    }
}

/// A copy of a list of pages.
fn copy_pages(pages: &Vec<Page>) -> (r: Vec<Page>)
    ensures
        r@ == pages@,
{
    let mut r: Vec<Page> = Vec::new();
    let mut i: usize = 0;
    while i < pages.len()
        invariant
            0 <= i <= pages@.len(),
            r@ == pages@.subrange(0, i as int),
        decreases pages@.len() - i,
    {
        r.push(pages[i].duplicate());
        i += 1;
        assert(r@ =~= pages@.subrange(0, i as int));
    }
    assert(r@ =~= pages@);
    r
}

/// Some page of `pages` has the URL `u`.
pub open spec fn recorded(pages: Seq<Page>, u: Seq<char>) -> bool {
    exists|j: int| 0 <= j < pages.len() && #[trigger] pages[j].url@ == u
}

/// Whether the URL in every pair (the first of each pair when `first`, else
/// the second) is the URL of one of `pages`.
fn all_recorded(pairs: &Vec<(String, String)>, first: bool, pages: &Vec<Page>) -> (r: bool)
    ensures
        r == forall|i: int|
            0 <= i < pairs@.len() ==> recorded(
                pages@,
                if first {
                    (#[trigger] pairs@[i]).0@
                } else {
                    pairs@[i].1@
                },
            ),
{
    let mut i: usize = 0;
    while i < pairs.len()
        invariant
            0 <= i <= pairs@.len(),
            forall|k: int|
                0 <= k < i ==> recorded(
                    pages@,
                    if first {
                        (#[trigger] pairs@[k]).0@
                    } else {
                        pairs@[k].1@
                    },
                ),
        decreases pairs@.len() - i,
    {
        let u = if first { &pairs[i].0 } else { &pairs[i].1 };
        let mut j: usize = 0;
        while j < pages.len() && !(pages[j].url == *u)
            invariant
                0 <= j <= pages@.len(),
                forall|m: int| 0 <= m < j ==> #[trigger] pages@[m].url@ != u@,
            decreases pages@.len() - j,
        {
            j += 1;
        }
        if j == pages.len() {
            assert(!recorded(pages@, u@));
            assert(u@ == if first { pairs@[i as int].0@ } else { pairs@[i as int].1@ });
            return false;
        }
        assert(pages@[j as int].url@ == u@);
        i += 1;
    }
    true
}

/// Whether no two of `pages` have the same URL.
fn distinct_urls(pages: &Vec<Page>) -> (r: bool)
    ensures
        r == forall|i: int, j: int|
            #![trigger pages@[i], pages@[j]]
            0 <= i < j < pages@.len() ==> pages@[i].url@ != pages@[j].url@,
{
    let mut i: usize = 0;
    while i < pages.len()
        invariant
            0 <= i <= pages@.len(),
            forall|a: int, b: int|
                #![trigger pages@[a], pages@[b]]
                0 <= a < b < pages@.len() && a < i ==> pages@[a].url@ != pages@[b].url@,
        decreases pages@.len() - i,
    {
        let mut j: usize = i + 1;
        while j < pages.len()
            invariant
                0 <= i < j <= pages@.len(),
                forall|a: int, b: int|
                    #![trigger pages@[a], pages@[b]]
                    0 <= a < b < pages@.len() && a < i ==> pages@[a].url@ != pages@[b].url@,
                forall|b: int| #![trigger pages@[b]] i < b < j ==> pages@[i as int].url@ != pages@[b].url@,
            decreases pages@.len() - j,
        {
            if pages[i].url == pages[j].url {
                assert(pages@[i as int].url@ == pages@[j as int].url@);
                return false;
            }
            j += 1;
        }
        i += 1;
    }
    true
}

/// Whether no two of `pages` are the same page.
fn distinct_pages(pages: &Vec<Page>) -> (r: bool)
    ensures
        r == forall|i: int, j: int|
            #![trigger pages@[i], pages@[j]]
            0 <= i < j < pages@.len() ==> !pages@[i].same_page(&pages@[j]),
{
    let mut i: usize = 0;
    while i < pages.len()
        invariant
            0 <= i <= pages@.len(),
            forall|a: int, b: int|
                #![trigger pages@[a], pages@[b]]
                0 <= a < b < pages@.len() && a < i ==> !pages@[a].same_page(&pages@[b]),
        decreases pages@.len() - i,
    {
        let mut j: usize = i + 1;
        while j < pages.len()
            invariant
                0 <= i < j <= pages@.len(),
                forall|a: int, b: int|
                    #![trigger pages@[a], pages@[b]]
                    0 <= a < b < pages@.len() && a < i ==> !pages@[a].same_page(&pages@[b]),
                forall|b: int| #![trigger pages@[b]] i < b < j ==> !pages@[i as int].same_page(&pages@[b]),
            decreases pages@.len() - j,
        {
            if pages[i] == pages[j] {
                assert(pages@[i as int].same_page(&pages@[j as int]));
                return false;
            }
            j += 1;
        }
        i += 1;
    }
    true
}

/// Saving and loading round-trips: any two stores whose persisted parts are
/// the same snapshot agree on the pages, posting lists, page words and links.
pub proof fn lemma_snapshot_round_trip(s: &IndexStore, t: &IndexStore, snap: &IndexSnapshot)
    requires
        s.snapshot_is(snap),
        t.snapshot_is(snap),
    ensures
        t.agrees_with(s),
{
    Relation::lemma_same_entries(&s.index, &t.index);
    Relation::lemma_same_entries(&s.invert_index, &t.invert_index);
    Relation::lemma_same_entries(&s.backlinks, &t.backlinks);
    Relation::lemma_same_entries(&s.outlinks, &t.outlinks);
    assert forall|u: Seq<char>, p: Page| #[trigger] t.page_at(u, p) == s.page_at(u, p) by {}
    assert forall|u: Seq<char>| #[trigger] t.knows(u) == s.knows(u) by {}
}

/// In every store a URL is in the posting list of a word exactly when the word
/// is among the words of that URL's page.
pub proof fn lemma_index_inverse(store: &IndexStore, w: Seq<char>, u: Seq<char>)
    requires
        store.wf(),
    ensures
        store.forward(w, u) <==> store.inverted(u, w),
{
}

/// The backlink count of a URL, by which search results are ranked, is the
/// number of distinct URLs linking to it.
pub proof fn lemma_backlink_count(store: &IndexStore, u: Seq<char>)
    requires
        store.wf(),
    ensures
        Set::new(|o: Seq<char>| store.backlink(u, o)).finite(),
        Set::new(|o: Seq<char>| store.backlink(u, o)).len() == store.backlink_count(u),
{
    store.backlinks.lemma_count_is_size(u);
    assert(Set::new(|o: Seq<char>| store.backlink(u, o)) =~= Set::new(
        |v: Seq<char>| store.backlinks.has(u, v),
    ));
}

/// In every store the page at `u` links to `o` exactly when `u` is among the
/// backlinks of `o`.
pub proof fn lemma_links_inverse(store: &IndexStore, u: Seq<char>, o: Seq<char>)
    requires
        store.wf(),
    ensures
        store.outlink(u, o) <==> store.backlink(o, u),
{
}

/// Search ignores case: two word lists that agree word by word in lowercase
/// match the same URLs.
pub proof fn lemma_search_case_insensitive(
    store: &IndexStore,
    a: Seq<String>,
    b: Seq<String>,
    u: Seq<char>,
)
    requires
        a.len() == b.len(),
        forall|i: int| 0 <= i < a.len() ==> lower_of(#[trigger] a[i]@) == lower_of(b[i]@),
    ensures
        store.matches(lowered(a), u) == store.matches(lowered(b), u),
{
    assert(lowered(a) =~= lowered(b));
}

/// Searching for two words finds the URLs found by searching for each word
/// alone, and no others.
pub proof fn lemma_search_intersection(store: &IndexStore, a: String, b: String, u: Seq<char>)
    ensures
        store.matches(lowered(seq![a, b]), u) == (store.matches(lowered(seq![a]), u)
            && store.matches(lowered(seq![b]), u)),
{
    let both = lowered(seq![a, b]);
    let first = lowered(seq![a]);
    let second = lowered(seq![b]);
    assert(both[0] == first[0]);
    assert(both[1] == second[0]);
    if store.matches(first, u) && store.matches(second, u) {
        assert forall|k: int| 0 <= k < both.len() implies store.forward(#[trigger] both[k], u) by {
            if k == 0 {
                assert(store.forward(first[0], u));
            } else {
                assert(store.forward(second[0], u));
            }
        }
    }
    if store.matches(both, u) {
        assert(store.forward(both[0], u));
        assert(store.forward(both[1], u));
    }
}

} // verus!
