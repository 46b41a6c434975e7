//! The gateway: URL frontier, barrel load balancing, and live status, and the
//! decisions of its request handlers.
pub mod load_balancer;
pub mod queue;
pub mod status;

use crate::settings::DomainsFilter;
use crate::text::{parse_url, url_parse};
use crate::GoogolStatus;
use load_balancer::{BarrelStatus, LBResult, LoadBalancer};
use queue::{enqueue_step, views, FrontierView, Queue};
use status::{capped, occurrences, GatewayStatus, ResponseTime};
use vstd::prelude::*;

verus! {

/// The canonical form of an absolute URL, or `None` for a string that is no
/// absolute URL.
pub fn canonical_url(s: &str) -> (r: Option<String>)
    ensures
        r matches Some(u) ==> url_parse(s@) == Some(u@),
        r is None ==> url_parse(s@) is None,
{
    parse_url(s)
}

/// The frontier after offering each of `links` that parses as a URL, in order.
pub open spec fn enqueue_all(v: FrontierView, filter: DomainsFilter, links: Seq<Seq<char>>) -> FrontierView
    decreases links.len(),
{
    if links.len() == 0 {
        v
    } else {
        let prev = enqueue_all(v, filter, links.drop_last());
        match url_parse(links.last()) {
            Some(u) => enqueue_step(prev, u, filter.spec_admits(u)).1,
            None => prev,
        }
    }
}

/// Handles a request to enqueue `url`: a string that is no absolute URL is
/// refused with `InvalidUrl` and an empty list; otherwise its canonical form
/// is offered to the frontier. Returns the status and the URLs waiting.
pub fn enqueue_url(queue: &mut Queue, url: &str) -> (r: (GoogolStatus, Vec<String>))
    requires
        old(queue).wf(),
    ensures
        final(queue).wf(),
        final(queue).filter() == old(queue).filter(),
        url_parse(url@) is None ==> r.0 == GoogolStatus::InvalidUrl && r.1@.len() == 0
            && final(queue).view() == old(queue).view(),
        url_parse(url@) matches Some(u) ==> (r.0, final(queue).view()) == enqueue_step(
            old(queue).view(),
            u,
            old(queue).filter().spec_admits(u),
        ) && views(r.1@) == final(queue).view().pending,
{
    match parse_url(url) {
        None => (GoogolStatus::InvalidUrl, Vec::new()),
        Some(u) => queue.enqueue(u),
    }
}

/// Offers each outlink of an indexed page to the frontier, in order; a link
/// that is no absolute URL is skipped.
pub fn admit_outlinks(queue: &mut Queue, outlinks: &Vec<String>)
    requires
        old(queue).wf(),
    ensures
        final(queue).wf(),
        final(queue).filter() == old(queue).filter(),
        final(queue).view() == enqueue_all(old(queue).view(), old(queue).filter(), views(outlinks@)),
{
    let ghost v0 = queue.view();
    let ghost f = queue.filter();
    let mut i: usize = 0;
    while i < outlinks.len()
        invariant
            0 <= i <= outlinks@.len(),
            queue.wf(),
            queue.filter() == f,
            queue.view() == enqueue_all(v0, f, views(outlinks@).subrange(0, i as int)),
        decreases outlinks@.len() - i,
    {
        proof {
            let s = views(outlinks@).subrange(0, i as int + 1);
            assert(s.drop_last() =~= views(outlinks@).subrange(0, i as int));
            assert(s.last() == outlinks@[i as int]@);
        }
        enqueue_url(queue, outlinks[i].as_str());
        i += 1;
    }
    assert(views(outlinks@).subrange(0, i as int) =~= views(outlinks@));
}

/// Completes a search that was sent to the barrels: on success the query's
/// words and the call's latency are recorded and `Success` is returned with
/// the response; when every barrel was offline nothing is recorded and
/// `UnavailableBarrels` is returned with no response.
pub fn finish_search<T>(status: &mut GatewayStatus, words: &Vec<String>, result: LBResult<T>) -> (r: (
    GoogolStatus,
    Option<T>,
))
    requires
        old(status).wf(),
    ensures
        final(status).wf(),
        result matches LBResult::Offline(_) ==> r.0 == GoogolStatus::UnavailableBarrels && r.1 is None
            && *final(status) == *old(status),
        result matches LBResult::Online(t, _, rt) ==> r.0 == GoogolStatus::Success && r.1 == Some(t)
            && final(status).response_time == old(status).response_time.merged(rt)
            && (forall|w: Seq<char>|
                #[trigger] final(status).top_searches.count_of(w) == capped(
                    old(status).top_searches.count_of(w) + occurrences(words@, w),
                ))
            && (forall|w: Seq<char>|
                #[trigger] final(status).top_searches.searched(w) <==> old(status).top_searches.searched(w)
                    || occurrences(words@, w) > 0),
{
    match result {
        LBResult::Online(t, _, rt) => {
            status.record_search(words, &rt);
            (GoogolStatus::Success, Some(t))
        },
        LBResult::Offline(_) => (GoogolStatus::UnavailableBarrels, None),
    }
}

/// The URL a backlinks or outlinks query is about, in canonical form, or
/// `InvalidUrl` for a string that is no absolute URL.
pub fn consult_target(url: &str) -> (r: Result<String, GoogolStatus>)
    ensures
        url_parse(url@) is None ==> r == Err::<String, GoogolStatus>(GoogolStatus::InvalidUrl),
        url_parse(url@) matches Some(u) ==> (r matches Ok(v) && v@ == u),
{
    match parse_url(url) {
        Some(u) => Ok(u),
        None => Err(GoogolStatus::InvalidUrl),
    }
}

/// Completes a backlinks or outlinks query that was sent to the barrels:
/// `Success` with the response, or `UnavailableBarrels` with none when every
/// barrel was offline.
pub fn finish_consult<T>(result: LBResult<T>) -> (r: (GoogolStatus, Option<T>))
    ensures
        result matches LBResult::Offline(_) ==> r.0 == GoogolStatus::UnavailableBarrels && r.1 is None,
        result matches LBResult::Online(t, _, _) ==> r.0 == GoogolStatus::Success && r.1 == Some(t),
{
    match result {
        LBResult::Online(t, _, _) => (GoogolStatus::Success, Some(t)),
        LBResult::Offline(_) => (GoogolStatus::UnavailableBarrels, None),
    }
}

/// What the live status stream reports.
pub struct StatusSnapshot {
    /// The ten most searched keywords, most searched first.
    pub top10_searches: Vec<String>,
    /// Every barrel, in order.
    pub barrels: Vec<BarrelStatus>,
    /// The latency aggregate of the searches.
    pub response_time: ResponseTime,
    /// The URLs waiting to be crawled.
    pub queue: Vec<String>,
}

/// A snapshot of the gateway's state for the status stream.
pub fn status_snapshot(status: &GatewayStatus, load_balancer: &LoadBalancer, queue: &Queue) -> (r: StatusSnapshot)
    requires
        status.wf(),
    ensures
        r.response_time == status.response_time,
        views(r.queue@) == queue.view().pending,
        r.barrels@.len() == load_balancer.barrels@.len(),
        forall|i: int|
            0 <= i < r.barrels@.len() ==> (#[trigger] r.barrels@[i]).address == load_balancer.barrels@[i].address
                && r.barrels@[i].online == load_balancer.barrels@[i].online
                && r.barrels@[i].index_size_bytes == load_balancer.barrels@[i].index_size_bytes,
        r.top10_searches@.len() == if 10 < status.top_searches.tallies().len() {
            10
        } else {
            status.top_searches.tallies().len() as int
        },
        forall|j: int| 0 <= j < r.top10_searches@.len() ==> status.top_searches.searched(#[trigger] r.top10_searches@[j]@),
        forall|a: int, b: int|
            0 <= a < b < r.top10_searches@.len() ==> status.top_searches.count_of(#[trigger] r.top10_searches@[a]@)
                >= status.top_searches.count_of(#[trigger] r.top10_searches@[b]@),
        forall|a: int, b: int|
            0 <= a < b < r.top10_searches@.len() ==> r.top10_searches@[a]@ != r.top10_searches@[b]@,
        forall|w: Seq<char>, j: int|
            #![trigger status.top_searches.count_of(w), r.top10_searches@[j]]
            status.top_searches.searched(w) && 0 <= j < r.top10_searches@.len() && !(exists|k: int|
                0 <= k < r.top10_searches@.len() && #[trigger] r.top10_searches@[k]@ == w)
                ==> status.top_searches.count_of(w) <= status.top_searches.count_of(r.top10_searches@[j]@),
{
    StatusSnapshot {
        top10_searches: status.top10(),
        barrels: load_balancer.get_barrels_status(),
        response_time: status.response_time,
        queue: queue.into_vec(),
    }
}

} // verus!
