//! The decisions of a barrel's request handlers over its index store.
use crate::gateway::queue::views;
use crate::index_store::IndexStore;
use crate::page::Page;
use crate::text::{parse_url, url_parse};
use crate::GoogolStatus;
use vstd::prelude::*;

verus! {

/// The canonical forms of those of `links` that parse as absolute URLs, in
/// order.
pub open spec fn parsed_links(links: Seq<Seq<char>>) -> Seq<Seq<char>>
    decreases links.len(),
{
    if links.len() == 0 {
        Seq::empty()
    } else {
        match url_parse(links.last()) {
            Some(u) => parsed_links(links.drop_last()).push(u),
            None => parsed_links(links.drop_last()),
        }
    }
}

/// The outlinks of an index request that are absolute URLs, in canonical
/// form; the others are dropped.
pub fn valid_outlinks(outlinks: &Vec<String>) -> (r: Vec<String>)
    ensures
        views(r@) == parsed_links(views(outlinks@)),
{
    let mut r: Vec<String> = Vec::new();
    let mut i: usize = 0;
    while i < outlinks.len()
        invariant
            0 <= i <= outlinks@.len(),
            views(r@) == parsed_links(views(outlinks@).subrange(0, i as int)),
        decreases outlinks@.len() - i,
    {
        proof {
            let s = views(outlinks@).subrange(0, i as int + 1);
            assert(s.drop_last() =~= views(outlinks@).subrange(0, i as int));
            assert(s.last() == outlinks@[i as int]@);
        }
        match parse_url(outlinks[i].as_str()) {
            Some(u) => {
                let ghost before = r@;
                r.push(u);
                assert(views(r@) =~= views(before).push(r@[r@.len() - 1]@));
            },
            None => {},
        }
        i += 1;
    }
    assert(views(outlinks@).subrange(0, i as int) =~= views(outlinks@));
    r
}

/// Handles an index request: stores the page with its words and those of its
/// outlinks that are absolute URLs.
pub fn index_page(store: &mut IndexStore, page: &Page, words: &Vec<String>, outlinks: &Vec<String>)
    requires
        old(store).wf(),
    ensures
        final(store).wf(),
        forall|w: Seq<char>, u: Seq<char>|
            #[trigger] final(store).forward(w, u) <==> old(store).forward(w, u) || (u == page.url@
                && crate::index_store::among(words@, w)),
        forall|u: Seq<char>, o: Seq<char>|
            #[trigger] final(store).outlink(u, o) <==> old(store).outlink(u, o) || (u == page.url@
                && parsed_links(views(outlinks@)).contains(o)),
        forall|u: Seq<char>, w: Seq<char>|
            #[trigger] final(store).inverted(u, w) <==> old(store).inverted(u, w) || (u == page.url@
                && crate::index_store::among(words@, w)),
        forall|o: Seq<char>, u: Seq<char>|
            #[trigger] final(store).backlink(o, u) <==> old(store).backlink(o, u) || (u == page.url@
                && parsed_links(views(outlinks@)).contains(o)),
        forall|u: Seq<char>, p: Page|
            #[trigger] final(store).page_at(u, p) <==> if u == page.url@ {
                p == *page
            } else {
                old(store).page_at(u, p)
            },
        forall|u: Seq<char>|
            #[trigger] final(store).knows(u) <==> u == page.url@ || old(store).knows(u),
        (exists|i: int|
            0 <= i < old(store).indexed().len() && #[trigger] old(store).indexed()[i].same_page(page))
            ==> final(store).indexed() == old(store).indexed(),
        !(exists|i: int|
            0 <= i < old(store).indexed().len() && #[trigger] old(store).indexed()[i].same_page(page))
            ==> final(store).indexed() == old(store).indexed().push(*page),
        final(store).spec_filepath() == old(store).spec_filepath(),
        final(store).spec_size_bytes() == old(store).spec_size_bytes(),
{
    let links = valid_outlinks(outlinks);
    store.store(page, words, &links);
    proof {
        assert forall|o: Seq<char>| crate::index_store::listed(links@, o) <==> parsed_links(views(outlinks@)).contains(o) by {
            if crate::index_store::listed(links@, o) {
                let j = choose|j: int| 0 <= j < links@.len() && #[trigger] links@[j]@ == o;
                assert(views(links@)[j] == o);
            }
            if parsed_links(views(outlinks@)).contains(o) {
                let j = choose|j: int| 0 <= j < views(links@).len() && views(links@)[j] == o;
                assert(links@[j]@ == o);
            }
        }
    }
}

/// Handles a backlinks request: `InvalidUrl` and nothing for a string that is
/// no absolute URL, else `Success` and the URLs linking to it.
pub fn consult_backlinks(store: &IndexStore, url: &str) -> (r: (GoogolStatus, Vec<String>))
    requires
        store.wf(),
    ensures
        url_parse(url@) is None ==> r.0 == GoogolStatus::InvalidUrl && r.1@.len() == 0,
        url_parse(url@) matches Some(u) ==> (r.0 == GoogolStatus::Success
            && (forall|j: int| 0 <= j < r.1@.len() ==> store.backlink(u, #[trigger] r.1@[j]@))
            && (forall|o: Seq<char>| store.backlink(u, o) ==> exists|j: int| 0 <= j < r.1@.len() && #[trigger] r.1@[j]@ == o)),
{
    match parse_url(url) {
        None => (GoogolStatus::InvalidUrl, Vec::new()),
        Some(u) => {
            let links = store.consult_backlinks(&u);
            let r = (GoogolStatus::Success, links);
            assert(r.1@ == links@);
            r
        },
    }
}

/// Handles an outlinks request: `InvalidUrl` and nothing for a string that is
/// no absolute URL, else `Success` and the URLs it links to.
pub fn consult_outlinks(store: &IndexStore, url: &str) -> (r: (GoogolStatus, Vec<String>))
    requires
        store.wf(),
    ensures
        url_parse(url@) is None ==> r.0 == GoogolStatus::InvalidUrl && r.1@.len() == 0,
        url_parse(url@) matches Some(u) ==> (r.0 == GoogolStatus::Success
            && (forall|j: int| 0 <= j < r.1@.len() ==> store.outlink(u, #[trigger] r.1@[j]@))
            && (forall|o: Seq<char>| store.outlink(u, o) ==> exists|j: int| 0 <= j < r.1@.len() && #[trigger] r.1@[j]@ == o)),
{
    match parse_url(url) {
        None => (GoogolStatus::InvalidUrl, Vec::new()),
        Some(u) => {
            let links = store.consult_outlinks(&u);
            let r = (GoogolStatus::Success, links);
            assert(r.1@ == links@);
            r
        },
    }
}

} // verus!
