//! Domain reputation categories and the cache of reputation lookups.
use crate::text::{lower_of, lowercase};
use vstd::prelude::*;

verus! {

/// Whether two strings hold the same characters.
fn same_text(a: &str, b: &str) -> (r: bool)
    ensures
        r == (a@ == b@),
{
    let n = a.unicode_len();
    if n != b.unicode_len() {
        return false;
    }
    let mut i: usize = 0;
    while i < n
        invariant
            n == a@.len(),
            n == b@.len(),
            0 <= i <= n,
            forall|j: int| 0 <= j < i ==> a@[j] == b@[j],
        decreases n - i,
    {
        if a.get_char(i) != b.get_char(i) {
            return false;
        }
        i += 1;
    }
    assert(a@ =~= b@);
    true
}

/// The category of a domain as reported by the reputation service.
#[derive(Debug, Clone, Copy, PartialEq, Eq, Hash, Structural)]
pub enum FishDomainCategory {
    /// Safe domains
    Safe,
    /// Domains associated with malware
    Malware,
    /// Domains used for phishing attacks
    Phishing,
    /// Unknown category
    Unknown,
}

/// The category whose lowercase name is exactly `s`.
pub open spec fn category_named(s: Seq<char>) -> Option<FishDomainCategory> {
    if s == "safe"@ {
        Some(FishDomainCategory::Safe)
    } else if s == "malware"@ {
        Some(FishDomainCategory::Malware)
    } else if s == "phishing"@ {
        Some(FishDomainCategory::Phishing)
    } else if s == "unknown"@ {
        Some(FishDomainCategory::Unknown)
    } else {
        None
    }
}

/// The category that a name denotes: its exact lowercase name, or a name
/// whose lowercase form is one.
pub open spec fn category_of(s: Seq<char>) -> Option<FishDomainCategory> {
    match category_named(s) {
        Some(c) => Some(c),
        None => category_named(lower_of(s)),
    }
}

impl FishDomainCategory {
    /// The lowercase name of the category.
    pub open spec fn spec_name(self) -> Seq<char> {
        match self {
            FishDomainCategory::Safe => "safe"@,
            FishDomainCategory::Malware => "malware"@,
            FishDomainCategory::Phishing => "phishing"@,
            FishDomainCategory::Unknown => "unknown"@,
        }
    }

    fn named(s: &str) -> (r: Option<FishDomainCategory>)
        ensures
            r == category_named(s@),
    {
        if same_text(s, "safe") {
            Some(FishDomainCategory::Safe)
        } else if same_text(s, "malware") {
            Some(FishDomainCategory::Malware)
        } else if same_text(s, "phishing") {
            Some(FishDomainCategory::Phishing)
        } else if same_text(s, "unknown") {
            Some(FishDomainCategory::Unknown)
        } else {
            None
        }
    }

    /// Parses a category name; a name in other case is accepted through its
    /// lowercase form.
    pub fn parse(s: &str) -> (r: Result<FishDomainCategory, ()>)
        ensures
            r matches Ok(c) ==> category_of(s@) == Some(c),
            r is Err <==> category_of(s@) is None,
    {
        match FishDomainCategory::named(s) {
            Some(c) => Ok(c),
            None => {
                let lower = lowercase(s);
                match FishDomainCategory::named(lower.as_str()) {
                    Some(c) => Ok(c),
                    None => Err(()),
                }
            },
        }
    }

    /// The category named by `s`, or `None` for an empty or unknown name.
    pub fn from_string(s: String) -> (r: Option<FishDomainCategory>)
        ensures
            s@.len() == 0 ==> r is None,
            s@.len() > 0 ==> r == category_of(s@),
    {
        if s.as_str().unicode_len() == 0 {
            None
        } else {
            match FishDomainCategory::parse(s.as_str()) {
                Ok(c) => Some(c),
                Err(()) => None,
            }
        }
    }

    /// The lowercase name of the category.
    pub fn to_string(&self) -> (r: String)
        ensures
            r@ == self.spec_name(),
    {
        let name: &str = match self {
            FishDomainCategory::Safe => "safe",
            FishDomainCategory::Malware => "malware",
            FishDomainCategory::Phishing => "phishing",
            FishDomainCategory::Unknown => "unknown",
        };
        name.to_string()
    }
}

/// A domain record of the reputation service.
#[derive(Debug)]
pub struct FishDomain {
    /// The time the domain was added
    pub added: i64,
    /// The category of the domain
    pub category: FishDomainCategory,
    /// The time the domain was last checked
    pub checked: i64,
    /// The description of the domain
    pub description: String,
    /// The domain
    pub domain: Option<String>,
    /// The target of the domain
    pub target: Option<String>,
}

/// What the reputation service answered about one host.
#[derive(Debug)]
pub enum Lookup {
    /// The service answered with a status other than success.
    Refused,
    /// The service answered with this domain record.
    Found(FishDomain),
    /// The service's answer was not a domain record.
    Unreadable,
}

/// The category a cached answer stands for.
pub open spec fn verdict_of(d: Option<FishDomainCategory>) -> FishDomainCategory {
    match d {
        Some(c) => c,
        None => FishDomainCategory::Unknown,
    }
}

/// The answers of the reputation service, cached by host.
pub struct FishFish {
    host2domain: Vec<(String, Option<FishDomain>)>,
}

impl FishFish {
    /// Each host is cached once.
    pub closed spec fn wf(&self) -> bool {
        forall|i: int, j: int|
            #![trigger self.host2domain@[i], self.host2domain@[j]]
            0 <= i < j < self.host2domain@.len() ==> self.host2domain@[i].0@ != self.host2domain@[j].0@
    }

    /// The cached answer for host `h`: `None` when nothing is cached, else the
    /// category of the cached record (`None` for a refused lookup).
    pub closed spec fn cached(&self, h: Seq<char>) -> Option<Option<FishDomainCategory>> {
        if exists|i: int| 0 <= i < self.host2domain@.len() && #[trigger] self.host2domain@[i].0@ == h {
            let i = choose|i: int| 0 <= i < self.host2domain@.len() && #[trigger] self.host2domain@[i].0@ == h;
            Some(
                match self.host2domain@[i].1 {
                    Some(d) => Some(d.category),
                    None => None,
                },
            )
        } else {
            None
        }
    }

    /// An empty cache.
    pub fn new() -> (r: FishFish)
        ensures
            r.wf(),
            forall|h: Seq<char>| r.cached(h) is None,
    {
        FishFish { host2domain: Vec::new() }
    }

    fn position(&self, host: &String) -> (r: Option<usize>)
        ensures
            r matches Some(i) ==> i < self.host2domain@.len() && self.host2domain@[i as int].0@ == host@,
            r is None ==> forall|i: int|
                0 <= i < self.host2domain@.len() ==> #[trigger] self.host2domain@[i].0@ != host@,
    {
        let mut i: usize = 0;
        while i < self.host2domain.len()
            invariant
                0 <= i <= self.host2domain@.len(),
                forall|j: int| 0 <= j < i ==> #[trigger] self.host2domain@[j].0@ != host@,
            decreases self.host2domain@.len() - i,
        {
            if self.host2domain[i].0 == *host {
                return Some(i);
            }
            i += 1;
        }
        None
    }

    proof fn lemma_cached_at(&self, i: int)
        requires
            self.wf(),
            0 <= i < self.host2domain@.len(),
        ensures
            self.cached(self.host2domain@[i].0@) == Some(
                match self.host2domain@[i].1 {
                    Some(d) => Some(d.category),
                    None => None,
                },
            ),
    {
        let h = self.host2domain@[i].0@;
        let k = choose|k: int| 0 <= k < self.host2domain@.len() && #[trigger] self.host2domain@[k].0@ == h;
        if k != i {
            assert(self.host2domain@[k].0@ == h);
        }
    }

    /// The category cached for `host`, if any: a cached refusal stands for
    /// `Unknown`.
    pub fn cached_category(&self, host: &String) -> (r: Option<FishDomainCategory>)
        requires
            self.wf(),
        ensures
            self.cached(host@) is None ==> r is None,
            self.cached(host@) matches Some(d) ==> r == Some(verdict_of(d)),
    {
        match self.position(host) {
            Some(i) => {
                proof {
                    self.lemma_cached_at(i as int);
                }
                match &self.host2domain[i].1 {
                    Some(d) => Some(d.category),
                    None => Some(FishDomainCategory::Unknown),
                }
            },
            None => None,
        }
    }

    /// Records what the service answered about `host` and returns the
    /// category that stands for it: a refusal is cached as `Unknown`, a
    /// record is cached with its category, and an unreadable answer is not
    /// cached and stands for `Unknown`.
    pub fn record_lookup(&mut self, host: &String, lookup: Lookup) -> (r: FishDomainCategory)
        requires
            old(self).wf(),
        ensures
            final(self).wf(),
            forall|h: Seq<char>| h != host@ ==> #[trigger] final(self).cached(h) == old(self).cached(h),
            lookup matches Lookup::Refused ==> r == FishDomainCategory::Unknown
                && final(self).cached(host@) == Some(None::<FishDomainCategory>),
            lookup matches Lookup::Found(d) ==> r == d.category
                && final(self).cached(host@) == Some(Some(d.category)),
            lookup matches Lookup::Unreadable ==> r == FishDomainCategory::Unknown
                && final(self).cached(host@) == old(self).cached(host@),
    {
        let (entry, r) = match lookup {
            Lookup::Refused => (None, FishDomainCategory::Unknown),
            Lookup::Found(d) => {
                let c = d.category;
                (Some(d), c)
            },
            Lookup::Unreadable => {
                return FishDomainCategory::Unknown;
            },
        };
        let ghost start = *self;
        let n = self.host2domain.len();
        match self.position(host) {
            Some(i) => {
                self.host2domain.set(i, (host.clone(), entry));
                proof {
                    assert forall|a: int, b: int|
                        #![trigger self.host2domain@[a], self.host2domain@[b]]
                        0 <= a < b < self.host2domain@.len() implies self.host2domain@[a].0@ != self.host2domain@[b].0@ by {
                        assert(start.host2domain@[a].0@ != start.host2domain@[b].0@);
                    }
                    self.lemma_cached_at(i as int);
                    assert forall|h: Seq<char>| h != host@ implies #[trigger] self.cached(h) == start.cached(h) by {
                        if exists|k: int| 0 <= k < start.host2domain@.len() && #[trigger] start.host2domain@[k].0@ == h {
                            let k = choose|k: int| 0 <= k < start.host2domain@.len() && #[trigger] start.host2domain@[k].0@ == h;
                            start.lemma_cached_at(k);
                            assert(self.host2domain@[k] == start.host2domain@[k]);
                            self.lemma_cached_at(k);
                        } else if exists|k: int| 0 <= k < self.host2domain@.len() && #[trigger] self.host2domain@[k].0@ == h {
                            let k = choose|k: int| 0 <= k < self.host2domain@.len() && #[trigger] self.host2domain@[k].0@ == h;
                            assert(start.host2domain@[k].0@ == h);
                        }
                    }
                }
            },
            None => {
                self.host2domain.push((host.clone(), entry));
                proof {
                    assert forall|a: int, b: int|
                        #![trigger self.host2domain@[a], self.host2domain@[b]]
                        0 <= a < b < self.host2domain@.len() implies self.host2domain@[a].0@ != self.host2domain@[b].0@ by {
                        if b < n {
                            assert(start.host2domain@[a].0@ != start.host2domain@[b].0@);
                        } else {
                            assert(self.host2domain@[a] == start.host2domain@[a]);
                        }
                    }
                    self.lemma_cached_at(n as int);
                    assert forall|h: Seq<char>| h != host@ implies #[trigger] self.cached(h) == start.cached(h) by {
                        if exists|k: int| 0 <= k < start.host2domain@.len() && #[trigger] start.host2domain@[k].0@ == h {
                            let k = choose|k: int| 0 <= k < start.host2domain@.len() && #[trigger] start.host2domain@[k].0@ == h;
                            start.lemma_cached_at(k);
                            assert(self.host2domain@[k] == start.host2domain@[k]);
                            self.lemma_cached_at(k);
                        } else if exists|k: int| 0 <= k < self.host2domain@.len() && #[trigger] self.host2domain@[k].0@ == h {
                            let k = choose|k: int| 0 <= k < self.host2domain@.len() && #[trigger] self.host2domain@[k].0@ == h;
                            assert(k < n);
                            assert(start.host2domain@[k].0@ == h);
                        }
                    }
                }
            },
        }
        r
    }
}

/// A domain record as the reputation service writes it, its category still
/// as text.
#[derive(Debug)]
pub struct FishDomainAnswer {
    pub added: i64,
    pub category: String,
    pub checked: i64,
    pub description: String,
    pub domain: Option<String>,
    pub target: Option<String>,
}

/// What an answer of the reputation service says: a refusal when its status
/// was not a success; else the domain record in its body when the body holds
/// one (`record`) whose category is one of the lowercase category names;
/// else an unreadable answer.
pub fn read_lookup(success: bool, record: Option<FishDomainAnswer>) -> (r: Lookup)
    ensures
        !success ==> r matches Lookup::Refused,
        success && record is None ==> r matches Lookup::Unreadable,
        success && record is Some && category_named(record.unwrap().category@) is None ==> r matches Lookup::Unreadable,
        success && record is Some && category_named(record.unwrap().category@) is Some ==> (r matches Lookup::Found(d)
            && Some(d.category) == category_named(record.unwrap().category@)
            && d.added == record.unwrap().added && d.checked == record.unwrap().checked
            && d.description == record.unwrap().description && d.domain == record.unwrap().domain
            && d.target == record.unwrap().target),
{
    if !success {
        return Lookup::Refused;
    }
    match record {
        None => Lookup::Unreadable,
        Some(a) => match FishDomainCategory::named(a.category.as_str()) {
            Some(category) => Lookup::Found(
                FishDomain {
                    added: a.added,
                    category,
                    checked: a.checked,
                    description: a.description,
                    domain: a.domain,
                    target: a.target,
                },
            ),
            None => Lookup::Unreadable,
        },
    }
}

} // verus!
