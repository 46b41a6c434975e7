//! The URL frontier: a deduplicated FIFO of URLs with a host filter.
use crate::settings::DomainsFilter;
use crate::GoogolStatus;
use std::collections::VecDeque;
use vstd::prelude::*;

verus! {

/// The views of a list of strings.
pub open spec fn views(v: Seq<String>) -> Seq<Seq<char>> {
    v.map_values(|s: String| s@)
}

/// What the frontier holds: the URLs waiting, in order, and the URLs seen.
pub struct FrontierView {
    pub pending: Seq<Seq<char>>,
    pub seen: Set<Seq<char>>,
}

/// The outcome of offering `url` to a frontier whose filter does (`admitted`)
/// or does not let it in.
pub open spec fn enqueue_step(v: FrontierView, url: Seq<char>, admitted: bool) -> (GoogolStatus, FrontierView) {
    if v.seen.contains(url) {
        (GoogolStatus::AlreadyIndexedUrl, v)
    } else if !admitted {
        (GoogolStatus::InvalidUrl, v)
    } else {
        (GoogolStatus::Success, FrontierView { pending: v.pending.push(url), seen: v.seen.insert(url) })
    }
}

/// The frontier after offering `url` `n` times.
pub open spec fn enqueue_times(v: FrontierView, url: Seq<char>, admitted: bool, n: nat) -> FrontierView
    decreases n,
{
    if n == 0 {
        v
    } else {
        enqueue_step(enqueue_times(v, url, admitted, (n - 1) as nat), url, admitted).1
    }
}

/// Every URL waiting has been seen, and none waits twice.
pub open spec fn frontier_wf(v: FrontierView) -> bool {
    &&& forall|i: int| 0 <= i < v.pending.len() ==> v.seen.contains(#[trigger] v.pending[i])
    &&& forall|i: int, j: int| 0 <= i < j < v.pending.len() ==> v.pending[i] != v.pending[j]
}

/// The URLs waiting to be crawled, the URLs seen, and the host filter.
#[derive(Debug, Default)]
pub struct Queue {
    queue: VecDeque<String>,
    seen: Vec<String>,
    domains_filter: DomainsFilter,
}

impl Queue {
    /// The frontier's contents.
    pub closed spec fn view(&self) -> FrontierView {
        FrontierView {
            pending: views(self.queue@),
            seen: Set::new(|u: Seq<char>| exists|i: int| 0 <= i < self.seen@.len() && #[trigger] self.seen@[i]@ == u),
        }
    }

    /// The host filter applied on enqueue.
    pub closed spec fn filter(&self) -> DomainsFilter {
        self.domains_filter
    }

    pub closed spec fn wf(&self) -> bool {
        frontier_wf(self.view())
    }

    /// An empty frontier that lets every URL in.
    pub fn create() -> (r: Queue)
        ensures
            r.wf(),
            r.view().pending.len() == 0,
            r.view().seen.is_empty(),
            r.filter().whitelist@.len() == 0,
            r.filter().blacklist@.len() == 0,
    {
        let r = Queue { queue: VecDeque::new(), seen: Vec::new(), domains_filter: DomainsFilter::new() };
        assert(r.view().seen =~= Set::empty());
        r
    }

    /// The frontier with its host filter replaced.
    pub fn with_domains_filter(self, domains_filter: &DomainsFilter) -> (r: Queue)
        ensures
            r.view() == self.view(),
            r.wf() == self.wf(),
            r.filter().whitelist@ == domains_filter.whitelist@,
            r.filter().blacklist@ == domains_filter.blacklist@,
    {
        Queue { domains_filter: domains_filter.duplicate(), ..self }
    }

    fn was_seen(&self, url: &String) -> (r: bool)
        ensures
            r == self.view().seen.contains(url@),
    {
        let mut i: usize = 0;
        while i < self.seen.len()
            invariant
                0 <= i <= self.seen@.len(),
                forall|j: int| 0 <= j < i ==> #[trigger] self.seen@[j]@ != url@,
            decreases self.seen@.len() - i,
        {
            if self.seen[i] == *url {
                assert(self.seen@[i as int]@ == url@);
                return true;
            }
            i += 1;
        }
        false
    }

    /// Whether `url` has been seen.
    pub fn has_seen(&self, url: &str) -> (r: bool)
        ensures
            r == self.view().seen.contains(url@),
    {
        let u = url.to_string();
        self.was_seen(&u)
    }

    /// Whether no URL is marked seen.
    pub fn seen_is_empty(&self) -> (r: bool)
        ensures
            r == self.view().seen.is_empty(),
    {
        proof {
            if self.seen@.len() > 0 {
                assert(self.view().seen.contains(self.seen@[0]@));
            } else {
                assert(self.view().seen =~= Set::empty());
            }
        }
        self.seen.len() == 0
    }

    /// The URLs waiting, in order.
    pub fn into_vec(&self) -> (r: Vec<String>)
        ensures
            views(r@) == self.view().pending,
    {
        let mut r: Vec<String> = Vec::new();
        let mut i: usize = 0;
        while i < self.queue.len()
            invariant
                0 <= i <= self.queue@.len(),
                r@.len() == i,
                forall|k: int| 0 <= k < i ==> #[trigger] r@[k]@ == self.queue@[k]@,
            decreases self.queue@.len() - i,
        {
            r.push(self.queue[i].clone());
            i += 1;
        }
        assert(views(r@) =~= views(self.queue@));
        r
    }

    /// Offers `url` to the frontier: a URL seen before is refused with
    /// `AlreadyIndexedUrl`, one that the host filter keeps out with
    /// `InvalidUrl`; any other is appended and marked seen. Returns the status
    /// and the URLs waiting afterwards.
    pub fn enqueue(&mut self, url: String) -> (r: (GoogolStatus, Vec<String>))
        requires
            old(self).wf(),
        ensures
            final(self).wf(),
            (r.0, final(self).view()) == enqueue_step(old(self).view(), url@, old(self).filter().spec_admits(url@)),
            views(r.1@) == final(self).view().pending,
            final(self).filter() == old(self).filter(),
            (r.0 == GoogolStatus::Success || r.0 == GoogolStatus::AlreadyIndexedUrl)
                ==> final(self).view().seen.contains(url@),
    {
        if self.was_seen(&url) {
            return (GoogolStatus::AlreadyIndexedUrl, self.into_vec());
        }
        if !self.domains_filter.admits(url.as_str()) {
            return (GoogolStatus::InvalidUrl, self.into_vec());
        }
        let ghost v0 = self.view();
        let ghost s0 = self.seen@;
        self.queue.push_back(url.clone());
        self.seen.push(url);
        proof {
            let v = self.view();
            assert(v.pending =~= v0.pending.push(url@));
            assert(self.seen@[self.seen@.len() - 1]@ == url@);
            assert(v.seen =~= v0.seen.insert(url@)) by {
                assert forall|u: Seq<char>| v.seen.contains(u) <==> v0.seen.contains(u) || u == url@ by {
                    if v.seen.contains(u) {
                        let i = choose|i: int| 0 <= i < self.seen@.len() && #[trigger] self.seen@[i]@ == u;
                        if i < s0.len() {
                            assert(s0[i] == self.seen@[i]);
                            assert(v0.seen.contains(u));
                        }
                    }
                    if v0.seen.contains(u) {
                        let i = choose|i: int| 0 <= i < s0.len() && #[trigger] s0[i]@ == u;
                        assert(self.seen@[i] == s0[i]);
                    }
                }
            }
            assert forall|i: int, j: int| 0 <= i < j < v.pending.len() implies v.pending[i] != v.pending[j] by {
                if j == v.pending.len() - 1 {
                    assert(v0.seen.contains(v0.pending[i]));
                }
            }
        }
        (GoogolStatus::Success, self.into_vec())
    }

    /// Takes the oldest waiting URL, if any; the seen URLs are kept.
    pub fn dequeue(&mut self) -> (r: Option<String>)
        requires
            old(self).wf(),
        ensures
            final(self).wf(),
            final(self).view().seen == old(self).view().seen,
            final(self).filter() == old(self).filter(),
            old(self).view().pending.len() == 0 ==> r is None && final(self).view() == old(self).view(),
            old(self).view().pending.len() > 0 ==> (r matches Some(u) && u@ == old(self).view().pending[0]
                && final(self).view().pending == old(self).view().pending.drop_first()),
    {
        let ghost v0 = self.view();
        let r = self.queue.pop_front();
        proof {
            let v = self.view();
            if v0.pending.len() > 0 {
                assert(v.pending =~= v0.pending.drop_first());
            } else {
                assert(v.pending =~= v0.pending);
            }
            assert(v.seen =~= v0.seen);
        }
        r
    }

    /// Forgets every seen URL that is no longer waiting.
    pub fn clear_seen(&mut self)
        requires
            old(self).wf(),
        ensures
            final(self).wf(),
            final(self).view().pending == old(self).view().pending,
            final(self).view().seen == final(self).view().pending.to_set(),
            final(self).filter() == old(self).filter(),
    {
        let ghost v0 = self.view();
        let mut seen: Vec<String> = Vec::new();
        let mut i: usize = 0;
        while i < self.queue.len()
            invariant
                0 <= i <= self.queue@.len(),
                seen@.len() == i,
                forall|k: int| 0 <= k < i ==> #[trigger] seen@[k]@ == self.queue@[k]@,
            decreases self.queue@.len() - i,
        {
            seen.push(self.queue[i].clone());
            i += 1;
        }
        assert(views(seen@) =~= views(self.queue@));
        self.seen = seen;
        proof {
            let v = self.view();
            assert(v.pending == v0.pending);
            assert forall|u: Seq<char>| v.seen.contains(u) <==> v.pending.to_set().contains(u) by {
                if v.seen.contains(u) {
                    let k = choose|k: int| 0 <= k < self.seen@.len() && #[trigger] self.seen@[k]@ == u;
                    assert(views(self.seen@)[k] == u);
                    assert(v.pending[k] == u);
                }
                if v.pending.to_set().contains(u) {
                    let k = choose|k: int| 0 <= k < v.pending.len() && v.pending[k] == u;
                    assert(views(self.seen@)[k] == u);
                    assert(self.seen@[k]@ == u);
                }
            }
            assert(v.seen =~= v.pending.to_set());
        }
    }
}

/// Every URL waiting in a frontier has been seen.
pub proof fn lemma_pending_seen(q: &Queue, i: int)
    requires
        q.wf(),
        0 <= i < q.view().pending.len(),
    ensures
        q.view().seen.contains(q.view().pending[i]),
{
}

/// Offering a URL again right after it was let in or found seen changes
/// nothing and answers `AlreadyIndexedUrl`: so of consecutive `enqueue` calls
/// with one URL, each after the first is refused and the URL waits once.
pub proof fn lemma_enqueue_again(v: FrontierView, url: Seq<char>, admitted: bool)
    ensures
        (enqueue_step(v, url, admitted).0 == GoogolStatus::Success || enqueue_step(v, url, admitted).0
            == GoogolStatus::AlreadyIndexedUrl) ==> enqueue_step(enqueue_step(v, url, admitted).1, url, admitted)
            == (GoogolStatus::AlreadyIndexedUrl, enqueue_step(v, url, admitted).1),
        enqueue_step(v, url, admitted).0 == GoogolStatus::Success ==> enqueue_step(v, url, admitted).1.pending
            == v.pending.push(url),
{
}

/// Offering the same URL `n` times, `n` at least one, leaves the frontier as
/// one offer does, so the URL waits at most once; once it has been seen or let
/// in, every later offer is refused as already seen.
pub proof fn lemma_enqueue_idempotent(v: FrontierView, url: Seq<char>, admitted: bool, n: nat)
    requires
        n >= 1,
    ensures
        enqueue_times(v, url, admitted, n) == enqueue_times(v, url, admitted, 1),
        forall|k: nat|
            1 <= k < n && (v.seen.contains(url) || admitted) ==> (#[trigger] enqueue_step(
                enqueue_times(v, url, admitted, k),
                url,
                admitted,
            )).0 == GoogolStatus::AlreadyIndexedUrl,
    decreases n,
{
    let one = enqueue_times(v, url, admitted, 1);
    assert(enqueue_times(v, url, admitted, 0) == v);
    if v.seen.contains(url) || admitted {
        assert(one.seen.contains(url));
    }
    if n > 1 {
        lemma_enqueue_idempotent(v, url, admitted, (n - 1) as nat);
        let prev = enqueue_times(v, url, admitted, (n - 1) as nat);
        assert(prev == one);
        assert(enqueue_times(v, url, admitted, n) == enqueue_step(prev, url, admitted).1);
        if !(v.seen.contains(url) || admitted) {
            assert(one == v);
        }
    }
}

} // verus!
