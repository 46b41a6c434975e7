//! Write-all and read-until-success fan-out over the configured barrels.
//!
//! The RPC attempts themselves happen outside the library: for each barrel in
//! order, the caller connects, calls, and reports the outcome as
//! `Some((response, elapsed_millis))` or `None`. The functions here turn those
//! outcomes into the barrels' health and the call's result.
use super::status::ResponseTime;
use vstd::prelude::*;

verus! {

/// A barrel as the gateway knows it.
#[derive(Debug)]
pub struct Barrel {
    /// The barrel's listening address.
    pub address: String,
    /// Whether the last attempt at the barrel succeeded.
    pub online: bool,
    /// The last known size of the barrel's index.
    pub index_size_bytes: u64,
}

/// A snapshot of one barrel for the status stream.
#[derive(Debug)]
pub struct BarrelStatus {
    pub address: String,
    pub online: bool,
    pub index_size_bytes: u64,
}

/// The barrels, in configuration order.
#[derive(Debug)]
pub struct LoadBalancer {
    pub barrels: Vec<Barrel>,
}

/// The result of a fan-out: the response(s), how many barrels failed, and the
/// latency of the successful calls; or, when every barrel failed, their
/// number.
#[derive(Debug)]
pub enum LBResult<T> {
    Online(T, usize, ResponseTime),
    Offline(usize),
}

/// The responses among some outcomes, in order.
pub open spec fn answered<T>(a: Seq<Option<(T, u64)>>) -> Seq<T>
    decreases a.len(),
{
    if a.len() == 0 {
        Seq::empty()
    } else {
        match a.last() {
            Some(x) => answered(a.drop_last()).push(x.0),
            None => answered(a.drop_last()),
        }
    }
}

/// The latencies of the successful outcomes, in order.
pub open spec fn answer_times<T>(a: Seq<Option<(T, u64)>>) -> Seq<u64>
    decreases a.len(),
{
    if a.len() == 0 {
        Seq::empty()
    } else {
        match a.last() {
            Some(x) => answer_times(a.drop_last()).push(x.1),
            None => answer_times(a.drop_last()),
        }
    }
}

/// The number of failed outcomes.
pub open spec fn failures<T>(a: Seq<Option<(T, u64)>>) -> nat
    decreases a.len(),
{
    if a.len() == 0 {
        0
    } else {
        failures(a.drop_last()) + if a.last() is None {
            1nat
        } else {
            0nat
        }
    }
}

/// The same barrels, with only the health flags possibly changed.
pub open spec fn same_barrels(a: Seq<Barrel>, b: Seq<Barrel>) -> bool {
    &&& a.len() == b.len()
    &&& forall|i: int|
        0 <= i < a.len() ==> (#[trigger] a[i]).address == b[i].address && a[i].index_size_bytes
            == b[i].index_size_bytes
}

proof fn lemma_prefix<T>(a: Seq<Option<(T, u64)>>, i: int)
    requires
        0 <= i < a.len(),
    ensures
        answered(a.subrange(0, i + 1)) == match a[i] {
            Some(x) => answered(a.subrange(0, i)).push(x.0),
            None => answered(a.subrange(0, i)),
        },
        answer_times(a.subrange(0, i + 1)) == match a[i] {
            Some(x) => answer_times(a.subrange(0, i)).push(x.1),
            None => answer_times(a.subrange(0, i)),
        },
        failures(a.subrange(0, i + 1)) == failures(a.subrange(0, i)) + if a[i] is None {
            1nat
        } else {
            0nat
        },
        answered(a.subrange(0, i + 1)).len() + failures(a.subrange(0, i + 1)) == i + 1,
    decreases i,
{
    let s = a.subrange(0, i + 1);
    assert(s.len() == i + 1);
    assert(s.drop_last() =~= a.subrange(0, i));
    assert(s.last() == a[i]);
    if i > 0 {
        lemma_prefix(a, i - 1);
    } else {
        assert(a.subrange(0, 0) =~= Seq::<Option<(T, u64)>>::empty());
        assert(answered(a.subrange(0, 0)).len() == 0);
        assert(failures(a.subrange(0, 0)) == 0);
    }
}

impl LoadBalancer {
    /// All barrels of `addresses`, in order, none yet known online.
    pub fn new(addresses: &Vec<String>) -> (r: LoadBalancer)
        ensures
            r.barrels@.len() == addresses@.len(),
            forall|i: int|
                0 <= i < addresses@.len() ==> (#[trigger] r.barrels@[i]).address == addresses@[i]
                    && !r.barrels@[i].online && r.barrels@[i].index_size_bytes == 0,
    {
        let mut barrels: Vec<Barrel> = Vec::new();
        let mut i: usize = 0;
        while i < addresses.len()
            invariant
                0 <= i <= addresses@.len(),
                barrels@.len() == i,
                forall|j: int|
                    0 <= j < i ==> (#[trigger] barrels@[j]).address == addresses@[j]
                        && !barrels@[j].online && barrels@[j].index_size_bytes == 0,
            decreases addresses@.len() - i,
        {
            barrels.push(Barrel { address: addresses[i].clone(), online: false, index_size_bytes: 0 });
            i += 1;
        }
        LoadBalancer { barrels }
    }

    /// Sets the health flag of barrel `i`.
    fn mark(&mut self, i: usize, online: bool)
        requires
            i < old(self).barrels@.len(),
        ensures
            final(self).barrels@ == old(self).barrels@.update(
                i as int,
                Barrel { online, ..old(self).barrels@[i as int] },
            ),
    {
        let b = Barrel {
            address: self.barrels[i].address.clone(),
            online,
            index_size_bytes: self.barrels[i].index_size_bytes,
        };
        self.barrels.set(i, b);
    }

    /// A snapshot of every barrel, in order.
    pub fn get_barrels_status(&self) -> (r: Vec<BarrelStatus>)
        ensures
            r@.len() == self.barrels@.len(),
            forall|i: int|
                0 <= i < r@.len() ==> (#[trigger] r@[i]).address == self.barrels@[i].address
                    && r@[i].online == self.barrels@[i].online && r@[i].index_size_bytes
                    == self.barrels@[i].index_size_bytes,
    {
        let mut r: Vec<BarrelStatus> = Vec::new();
        let mut i: usize = 0;
        while i < self.barrels.len()
            invariant
                0 <= i <= self.barrels@.len(),
                r@.len() == i,
                forall|j: int|
                    0 <= j < i ==> (#[trigger] r@[j]).address == self.barrels@[j].address
                        && r@[j].online == self.barrels@[j].online && r@[j].index_size_bytes
                        == self.barrels@[j].index_size_bytes,
            decreases self.barrels@.len() - i,
        {
            r.push(
                BarrelStatus {
                    address: self.barrels[i].address.clone(),
                    online: self.barrels[i].online,
                    index_size_bytes: self.barrels[i].index_size_bytes,
                },
            );
            i += 1;
        }
        r
    }

    /// Applies the outcome of one attempt at every barrel, in order: each
    /// barrel is marked online exactly when its attempt succeeded. Returns the
    /// responses of the successful attempts, the number of failures and the
    /// latency aggregate of the successes; `Offline` with the number of
    /// barrels when none succeeded.
    pub fn broadcast<T>(&mut self, attempts: Vec<Option<(T, u64)>>) -> (r: LBResult<Vec<T>>)
        requires
            attempts@.len() == old(self).barrels@.len(),
        ensures
            same_barrels(final(self).barrels@, old(self).barrels@),
            forall|i: int|
                0 <= i < attempts@.len() ==> (#[trigger] final(self).barrels@[i]).online
                    == attempts@[i] is Some,
            answered(attempts@).len() + failures(attempts@) == attempts@.len(),
            answered(attempts@).len() > 0 ==> (r matches LBResult::Online(responses, offline, rt)
                && responses@ == answered(attempts@) && offline == failures(attempts@)
                && rt == (ResponseTime { total_millis: 0, count: 0 }).with_samples(
                answer_times(attempts@),
            )),
            answered(attempts@).len() == 0 ==> (r matches LBResult::Offline(n) && n
                == attempts@.len()),
    {
        let ghost all = attempts@;
        let ghost start = self.barrels@;
        let mut rest = attempts;
        let mut responses: Vec<T> = Vec::new();
        let mut offline: usize = 0;
        let mut rt = ResponseTime::new();
        let n = self.barrels.len();
        let mut i: usize = 0;
        assert(all.subrange(0, 0) =~= Seq::<Option<(T, u64)>>::empty());
        assert(rest@ =~= all.subrange(0, all.len() as int));
        while i < n
            invariant
                n == all.len(),
                n == self.barrels@.len(),
                0 <= i <= n,
                rest@ == all.subrange(i as int, n as int),
                same_barrels(self.barrels@, start),
                forall|j: int| 0 <= j < i ==> (#[trigger] self.barrels@[j]).online == all[j] is Some,
                responses@ == answered(all.subrange(0, i as int)),
                offline == failures(all.subrange(0, i as int)),
                rt == (ResponseTime { total_millis: 0, count: 0 }).with_samples(
                    answer_times(all.subrange(0, i as int)),
                ),
                answered(all.subrange(0, i as int)).len() + failures(all.subrange(0, i as int)) == i,
            decreases n - i,
        {
            proof {
                lemma_prefix(all, i as int);
            }
            let outcome = rest.remove(0);
            assert(outcome == all[i as int]);
            let ghost before = self.barrels@;
            match outcome {
                Some((response, elapsed)) => {
                    self.mark(i, true);
                    responses.push(response);
                    rt.new_sample(elapsed);
                    proof {
                        let ts = answer_times(all.subrange(0, i as int + 1));
                        assert(ts.drop_last() == answer_times(all.subrange(0, i as int)));
                    }
                },
                None => {
                    self.mark(i, false);
                    offline += 1;
                },
            }
            proof {
                assert forall|j: int| 0 <= j < i + 1 implies (#[trigger] self.barrels@[j]).online == all[j] is Some by {
                    if j < i {
                        assert(self.barrels@[j] == before[j]);
                    }
                }
                assert forall|j: int| 0 <= j < self.barrels@.len() implies (#[trigger] self.barrels@[j]).address
                    == start[j].address && self.barrels@[j].index_size_bytes == start[j].index_size_bytes by {
                    assert(before[j].address == start[j].address);
                }
                assert(rest@ =~= all.subrange(i as int + 1, n as int));
            }
            i += 1;
        }
        assert(all.subrange(0, n as int) =~= all);
        if responses.len() > 0 {
            LBResult::Online(responses, offline, rt)
        } else {
            LBResult::Offline(n)
        }
    }
    /// Applies the outcomes of attempts at the barrels in order, up to the
    /// first success: every barrel that failed before it is marked offline,
    /// the successful one online, and its response is returned with the
    /// number of failures before it and its latency. Outcomes after the first
    /// success are not looked at. When every outcome failed, `Offline` with
    /// the number of barrels.
    pub fn send_until<T>(&mut self, attempts: Vec<Option<(T, u64)>>) -> (r: LBResult<T>)
        requires
            attempts@.len() <= old(self).barrels@.len(),
        ensures
            same_barrels(final(self).barrels@, old(self).barrels@),
            forall|k: int|
                #![trigger attempts@[k]]
                0 <= k < attempts@.len() && attempts@[k] is Some && (forall|j: int|
                    0 <= j < k ==> attempts@[j] is None) ==> (r matches LBResult::Online(t, offline, rt)
                    && t == attempts@[k].unwrap().0 && offline == k
                    && rt == (ResponseTime { total_millis: 0, count: 0 }).with_sample(attempts@[k].unwrap().1)
                    && (forall|j: int| 0 <= j < k ==> !(#[trigger] final(self).barrels@[j]).online)
                    && final(self).barrels@[k].online
                    && (forall|j: int| k < j < final(self).barrels@.len() ==> (#[trigger] final(self).barrels@[j]).online == old(self).barrels@[j].online)),
            (forall|j: int| 0 <= j < attempts@.len() ==> attempts@[j] is None) ==> (r matches LBResult::Offline(n)
                && n == old(self).barrels@.len()
                && (forall|j: int| 0 <= j < attempts@.len() ==> !(#[trigger] final(self).barrels@[j]).online)
                && (forall|j: int| attempts@.len() <= j < final(self).barrels@.len() ==> (#[trigger] final(self).barrels@[j]).online == old(self).barrels@[j].online)),
    {
        let ghost all = attempts@;
        let ghost start = self.barrels@;
        let mut rest = attempts;
        let m = rest.len();
        let mut i: usize = 0;
        assert(rest@ =~= all.subrange(0, all.len() as int));
        while i < m
            invariant
                start == old(self).barrels@,
                all == attempts@,
                m == all.len(),
                m <= self.barrels@.len(),
                0 <= i <= m,
                rest@ == all.subrange(i as int, m as int),
                same_barrels(self.barrels@, start),
                forall|j: int| 0 <= j < i ==> all[j] is None,
                forall|j: int| 0 <= j < i ==> !(#[trigger] self.barrels@[j]).online,
                forall|j: int| i <= j < self.barrels@.len() ==> (#[trigger] self.barrels@[j]).online == start[j].online,
            decreases m - i,
        {
            let outcome = rest.remove(0);
            assert(outcome == all[i as int]);
            let ghost before = self.barrels@;
            match outcome {
                Some((response, elapsed)) => {
                    self.mark(i, true);
                    let mut rt = ResponseTime::new();
                    rt.new_sample(elapsed);
                    proof {
                        assert forall|j: int| 0 <= j < self.barrels@.len() implies (#[trigger] self.barrels@[j]).address
                            == start[j].address && self.barrels@[j].index_size_bytes == start[j].index_size_bytes by {
                            assert(before[j].address == start[j].address);
                        }
                        assert forall|j: int| 0 <= j < i implies !(#[trigger] self.barrels@[j]).online by {
                            assert(self.barrels@[j] == before[j]);
                        }
                        assert forall|j: int| i < j < self.barrels@.len() implies (#[trigger] self.barrels@[j]).online == start[j].online by {
                            assert(self.barrels@[j] == before[j]);
                        }
                        assert forall|k: int|
                            0 <= k < all.len() && all[k] is Some && (forall|j: int|
                                0 <= j < k ==> all[j] is None) implies k == i by {
                            if k < i {
                            } else if k > i {
                                assert(all[i as int] is None);
                            }
                        }
                        assert(self.barrels@.len() == start.len());
                        assert(same_barrels(self.barrels@, start));
                        assert(all[i as int] == Some((response, elapsed)));
                        assert(self.barrels@[i as int].online);
                    }
                    return LBResult::Online(response, i, rt);
                },
                None => {
                    self.mark(i, false);
                },
            }
            proof {
                assert forall|j: int| 0 <= j < self.barrels@.len() implies (#[trigger] self.barrels@[j]).address
                    == start[j].address && self.barrels@[j].index_size_bytes == start[j].index_size_bytes by {
                    assert(before[j].address == start[j].address);
                }
                assert forall|j: int| 0 <= j < i + 1 implies !(#[trigger] self.barrels@[j]).online by {
                    if j < i {
                        assert(self.barrels@[j] == before[j]);
                    }
                }
                assert forall|j: int| i + 1 <= j < self.barrels@.len() implies (#[trigger] self.barrels@[j]).online == start[j].online by {
                    assert(self.barrels@[j] == before[j]);
                }
                assert(rest@ =~= all.subrange(i as int + 1, m as int));
            }
            i += 1;
        }
        LBResult::Offline(self.barrels.len())
    }
}

} // verus!
