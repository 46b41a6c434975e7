//! Live status of the gateway: the latency aggregate and the search counts.
use crate::top_searches::TopSearches;
use std::collections::VecDeque;
use vstd::prelude::*;

verus! {

/// A plain FIFO of URLs.
#[derive(Debug, Default)]
pub struct Queue(pub VecDeque<String>);

impl Queue {
    /// Appends `url`.
    pub fn push_back(&mut self, url: String)
        ensures
            final(self).0@ == old(self).0@.push(url),
    {
        self.0.push_back(url);
    }

    /// Takes the oldest URL, if any.
    pub fn pop_front(&mut self) -> (r: Option<String>)
        ensures
            old(self).0@.len() == 0 ==> r is None && final(self).0@ == old(self).0@,
            old(self).0@.len() > 0 ==> r == Some(old(self).0@[0]) && final(self).0@
                == old(self).0@.drop_first(),
    {
        self.0.pop_front()
    }
}

/// `a + b`, or the largest `u64` where the sum does not fit.
pub open spec fn sat_add(a: u64, b: u64) -> u64 {
    if a + b > u64::MAX {
        u64::MAX
    } else {
        (a + b) as u64
    }
}

/// The sum of some durations.
pub open spec fn total_of(ds: Seq<u64>) -> int
    decreases ds.len(),
{
    if ds.len() == 0 {
        0
    } else {
        total_of(ds.drop_last()) + ds.last()
    }
}

/// How many of `words` are `w`.
pub open spec fn occurrences(words: Seq<String>, w: Seq<char>) -> nat
    decreases words.len(),
{
    if words.len() == 0 {
        0
    } else {
        occurrences(words.drop_last(), w) + if words.last()@ == w {
            1nat
        } else {
            0nat
        }
    }
}

/// `n`, or the largest `usize` where `n` is larger.
pub open spec fn capped(n: int) -> usize {
    if n > usize::MAX {
        usize::MAX
    } else {
        n as usize
    }
}

/// Observed latencies, as their total and their number; the mean latency is
/// `total_millis / count`. Both saturate at the largest `u64`.
#[derive(Debug, Default, Clone, Copy)]
pub struct ResponseTime {
    /// The sum of the samples, in milliseconds.
    pub total_millis: u64,
    /// The number of samples.
    pub count: u64,
}

impl ResponseTime {
    /// The aggregate after one more sample of `d` milliseconds.
    pub open spec fn with_sample(self, d: u64) -> ResponseTime {
        ResponseTime { total_millis: sat_add(self.total_millis, d), count: sat_add(self.count, 1) }
    }

    /// The aggregate after the samples `ds`, in order.
    pub open spec fn with_samples(self, ds: Seq<u64>) -> ResponseTime
        decreases ds.len(),
    {
        if ds.len() == 0 {
            self
        } else {
            self.with_samples(ds.drop_last()).with_sample(ds.last())
        }
    }

    /// The two aggregates merged, each weighted by its count.
    pub open spec fn merged(self, other: ResponseTime) -> ResponseTime {
        ResponseTime {
            total_millis: sat_add(self.total_millis, other.total_millis),
            count: sat_add(self.count, other.count),
        }
    }

    /// No sample yet.
    pub fn new() -> (r: ResponseTime)
        ensures
            r.total_millis == 0,
            r.count == 0,
    {
        ResponseTime { total_millis: 0, count: 0 }
    }

    /// Records a sample of `elapsed_millis` milliseconds.
    pub fn new_sample(&mut self, elapsed_millis: u64)
        ensures
            *final(self) == old(self).with_sample(elapsed_millis),
    {
        self.total_millis = self.total_millis.saturating_add(elapsed_millis);
        self.count = self.count.saturating_add(1);
    }

    /// Merges another aggregate into this one, weighting each mean by its
    /// count.
    pub fn update(&mut self, response_time: &ResponseTime)
        ensures
            *final(self) == old(self).merged(*response_time),
    {
        self.total_millis = self.total_millis.saturating_add(response_time.total_millis);
        self.count = self.count.saturating_add(response_time.count);
    }
}

/// After the samples `ds`, taken from an empty aggregate, the aggregate holds
/// their sum and their number, so its mean is their arithmetic mean (as long
/// as the sum and the number fit in a `u64`).
pub proof fn lemma_mean_of_samples(ds: Seq<u64>)
    requires
        total_of(ds) <= u64::MAX,
        ds.len() <= u64::MAX,
    ensures
        (ResponseTime { total_millis: 0, count: 0 }).with_samples(ds).total_millis == total_of(ds),
        (ResponseTime { total_millis: 0, count: 0 }).with_samples(ds).count == ds.len(),
    decreases ds.len(),
{
    if ds.len() > 0 {
        assert(total_of(ds) == total_of(ds.drop_last()) + ds.last());
        lemma_mean_of_samples(ds.drop_last());
    }
}

/// The status that the gateway publishes: search counts and latency.
pub struct GatewayStatus {
    pub top_searches: TopSearches,
    pub response_time: ResponseTime,
}

impl GatewayStatus {
    pub open spec fn wf(&self) -> bool {
        self.top_searches.wf()
    }

    /// No search and no sample yet.
    pub fn new() -> (r: GatewayStatus)
        ensures
            r.wf(),
            r.top_searches.tallies().len() == 0,
            r.response_time == (ResponseTime { total_millis: 0, count: 0 }),
    {
        GatewayStatus { top_searches: TopSearches::new(), response_time: ResponseTime::new() }
    }

    /// Records a successful search for `words` and the latency aggregate of
    /// the call: each word's count grows by its number of occurrences,
    /// saturating at the largest `usize`.
    pub fn record_search(&mut self, words: &Vec<String>, response_time: &ResponseTime)
        requires
            old(self).wf(),
        ensures
            final(self).wf(),
            final(self).response_time == old(self).response_time.merged(*response_time),
            forall|w: Seq<char>|
                #[trigger] final(self).top_searches.searched(w) <==> old(self).top_searches.searched(w)
                    || occurrences(words@, w) > 0,
            forall|w: Seq<char>|
                #[trigger] final(self).top_searches.count_of(w) == capped(
                    old(self).top_searches.count_of(w) + occurrences(words@, w),
                ),
    {
        self.response_time.update(response_time);
        let ghost start = self.top_searches;
        let mut i: usize = 0;
        while i < words.len()
            invariant
                0 <= i <= words@.len(),
                self.top_searches.wf(),
                self.response_time == old(self).response_time.merged(*response_time),
                start == old(self).top_searches,
                forall|w: Seq<char>|
                    #[trigger] self.top_searches.searched(w) <==> start.searched(w)
                        || occurrences(words@.subrange(0, i as int), w) > 0,
                forall|w: Seq<char>|
                    #[trigger] self.top_searches.count_of(w) == capped(
                        start.count_of(w) + occurrences(words@.subrange(0, i as int), w),
                    ),
            decreases words@.len() - i,
        {
            let ghost before = self.top_searches;
            self.top_searches.add_search(words[i].as_str());
            proof {
                let prefix = words@.subrange(0, i as int);
                let next = words@.subrange(0, i as int + 1);
                assert(next.drop_last() =~= prefix);
                assert(next.last() == words@[i as int]);
                let x = words@[i as int]@;
                assert forall|w: Seq<char>|
                    #[trigger] self.top_searches.searched(w) <==> start.searched(w)
                        || occurrences(next, w) > 0 by {}
                assert forall|w: Seq<char>|
                    #[trigger] self.top_searches.count_of(w) == capped(
                        start.count_of(w) + occurrences(next, w),
                    ) by {
                    if w != x {
                        assert(self.top_searches.count_of(w) == before.count_of(w));
                    }
                }
            }
            i += 1;
        }
        assert(words@.subrange(0, i as int) =~= words@);
    }

    /// The ten most searched keywords, most searched first.
    pub fn top10(&self) -> (r: Vec<String>)
        requires
            self.wf(),
        ensures
            r@.len() == if 10 < self.top_searches.tallies().len() {
                10
            } else {
                self.top_searches.tallies().len() as int
            },
            forall|j: int| 0 <= j < r@.len() ==> self.top_searches.searched(#[trigger] r@[j]@),
            forall|a: int, b: int|
                0 <= a < b < r@.len() ==> self.top_searches.count_of(#[trigger] r@[a]@)
                    >= self.top_searches.count_of(#[trigger] r@[b]@),
            forall|a: int, b: int| 0 <= a < b < r@.len() ==> r@[a]@ != r@[b]@,
            forall|w: Seq<char>, j: int|
                #![trigger self.top_searches.count_of(w), r@[j]]
                self.top_searches.searched(w) && 0 <= j < r@.len() && !(exists|k: int|
                    0 <= k < r@.len() && #[trigger] r@[k]@ == w) ==> self.top_searches.count_of(w)
                    <= self.top_searches.count_of(r@[j]@),
    {
        let top = self.top_searches.top_n(10);
        let mut r: Vec<String> = Vec::new();
        let mut i: usize = 0;
        while i < top.len()
            invariant
                0 <= i <= top@.len(),
                r@.len() == i,
                forall|j: int| 0 <= j < i ==> #[trigger] r@[j]@ == top@[j].0@,
            decreases top@.len() - i,
        {
            r.push(top[i].0.clone());
            i += 1;
        }
        proof {
            assert forall|j: int| 0 <= j < r@.len() implies self.top_searches.searched(#[trigger] r@[j]@) by {
                assert(r@[j]@ == top@[j].0@);
            }
            assert forall|a: int, b: int|
                0 <= a < b < r@.len() implies self.top_searches.count_of(#[trigger] r@[a]@)
                    >= self.top_searches.count_of(#[trigger] r@[b]@) by {
                assert(r@[a]@ == top@[a].0@);
                assert(r@[b]@ == top@[b].0@);
            }
            assert forall|a: int, b: int| 0 <= a < b < r@.len() implies r@[a]@ != r@[b]@ by {
                assert(r@[a]@ == top@[a].0@);
                assert(r@[b]@ == top@[b].0@);
            }
            assert forall|w: Seq<char>, j: int|
                #![trigger self.top_searches.count_of(w), r@[j]]
                self.top_searches.searched(w) && 0 <= j < r@.len() && !(exists|k: int|
                    0 <= k < r@.len() && #[trigger] r@[k]@ == w) implies self.top_searches.count_of(w)
                    <= self.top_searches.count_of(r@[j]@) by {
                assert(r@[j]@ == top@[j].0@);
                if exists|k: int| 0 <= k < top@.len() && #[trigger] top@[k].0@ == w {
                    let k = choose|k: int| 0 <= k < top@.len() && #[trigger] top@[k].0@ == w;
                    assert(r@[k]@ == w);
                }
                assert(self.top_searches.count_of(w) <= top@[j].1);
            }
        }
        r
    }
}

} // verus!
