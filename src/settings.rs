//! The gateway's host filter and the host lists it is configured with.
use crate::text::{host_of_url, host_parse, parse_host, url_host};
use vstd::prelude::*;

verus! {

/// `h` is one of `hosts`.
pub open spec fn holds_host(hosts: Seq<String>, h: Seq<char>) -> bool {
    exists|j: int| 0 <= j < hosts.len() && #[trigger] hosts[j]@ == h
}

/// Whether `h` is one of `hosts`.
fn find_host(hosts: &Vec<String>, h: &String) -> (r: bool)
    ensures
        r == holds_host(hosts@, h@),
{
    let mut i: usize = 0;
    while i < hosts.len()
        invariant
            0 <= i <= hosts@.len(),
            forall|j: int| 0 <= j < i ==> #[trigger] hosts@[j]@ != h@,
        decreases hosts@.len() - i,
    {
        if hosts[i] == *h {
            return true;
        }
        i += 1;
    }
    false
}

/// Hosts explicitly allowed and hosts explicitly refused, each in the
/// serialized form of a parsed host.
#[derive(Debug, Default)]
pub struct DomainsFilter {
    /// Hosts that are explicitly allowed.
    pub whitelist: Vec<String>,
    /// Hosts that are explicitly refused.
    pub blacklist: Vec<String>,
}

impl DomainsFilter {
    /// The host of `url` is in the blacklist.
    pub open spec fn spec_blacklisted(&self, url: Seq<char>) -> bool {
        match url_host(url) {
            Some(h) => holds_host(self.blacklist@, h),
            None => false,
        }
    }

    /// The host of `url` is in the whitelist.
    pub open spec fn spec_whitelisted(&self, url: Seq<char>) -> bool {
        match url_host(url) {
            Some(h) => holds_host(self.whitelist@, h),
            None => false,
        }
    }

    /// The filter lets `url` in: its host is not refused, and it is allowed
    /// where a whitelist is given.
    pub open spec fn spec_admits(&self, url: Seq<char>) -> bool {
        !self.spec_blacklisted(url) && (self.whitelist@.len() == 0 || self.spec_whitelisted(url))
    }

    /// A filter that lets every URL in.
    pub fn new() -> (r: DomainsFilter)
        ensures
            r.whitelist@.len() == 0,
            r.blacklist@.len() == 0,
    {
        DomainsFilter { whitelist: Vec::new(), blacklist: Vec::new() }
    }

    /// A copy of the filter.
    pub fn duplicate(&self) -> (r: DomainsFilter)
        ensures
            r.whitelist@ == self.whitelist@,
            r.blacklist@ == self.blacklist@,
    {
        DomainsFilter { whitelist: copy_strings(&self.whitelist), blacklist: copy_strings(&self.blacklist) }
    }

    /// Whether the host of `url` is in the blacklist; `false` for a string
    /// that is no URL with a host.
    pub fn is_blacklisted(&self, url: &str) -> (r: bool)
        ensures
            r == self.spec_blacklisted(url@),
    {
        match host_of_url(url) {
            Some(h) => find_host(&self.blacklist, &h),
            None => false,
        }
    }

    /// Whether the host of `url` is in the whitelist; `false` for a string
    /// that is no URL with a host.
    pub fn is_whitelisted(&self, url: &str) -> (r: bool)
        ensures
            r == self.spec_whitelisted(url@),
    {
        match host_of_url(url) {
            Some(h) => find_host(&self.whitelist, &h),
            None => false,
        }
    }

    /// Whether the filter lets `url` in.
    pub fn admits(&self, url: &str) -> (r: bool)
        ensures
            r == self.spec_admits(url@),
    {
        !self.is_blacklisted(url) && (self.whitelist.len() == 0 || self.is_whitelisted(url))
    }
}

/// A copy of a list of strings.
fn copy_strings(v: &Vec<String>) -> (r: Vec<String>)
    ensures
        r@ == v@,
{
    let mut r: Vec<String> = Vec::new();
    let mut i: usize = 0;
    while i < v.len()
        invariant
            0 <= i <= v@.len(),
            r@ == v@.subrange(0, i as int),
        decreases v@.len() - i,
    {
        r.push(v[i].clone());
        i += 1;
    }
    assert(r@ =~= v@);
    r
}

/// Parses each configured host string; the serialized hosts, each once, or
/// the first string that is no host.
pub fn deserialize_hosts(host_strings: &Vec<String>) -> (r: Result<Vec<String>, String>)
    ensures
        r is Ok <==> forall|j: int| 0 <= j < host_strings@.len() ==> (#[trigger] host_parse(host_strings@[j]@)) is Some,
        r matches Ok(hosts) ==> (forall|h: Seq<char>|
            holds_host(hosts@, h) <==> exists|j: int|
                0 <= j < host_strings@.len() && #[trigger] host_parse(host_strings@[j]@) == Some(h)),
        r matches Ok(hosts) ==> forall|a: int, b: int| 0 <= a < b < hosts@.len() ==> hosts@[a]@ != hosts@[b]@,
        r matches Err(bad) ==> exists|j: int|
            0 <= j < host_strings@.len() && #[trigger] host_strings@[j] == bad && host_parse(bad@) is None,
{
    let mut hosts: Vec<String> = Vec::new();
    let mut i: usize = 0;
    while i < host_strings.len()
        invariant
            0 <= i <= host_strings@.len(),
            forall|j: int| 0 <= j < i ==> (#[trigger] host_parse(host_strings@[j]@)) is Some,
            forall|h: Seq<char>|
                holds_host(hosts@, h) <==> exists|j: int|
                    0 <= j < i && #[trigger] host_parse(host_strings@[j]@) == Some(h),
            forall|a: int, b: int| 0 <= a < b < hosts@.len() ==> hosts@[a]@ != hosts@[b]@,
        decreases host_strings@.len() - i,
    {
        match parse_host(host_strings[i].as_str()) {
            Some(h) => {
                let ghost old_hosts = hosts@;
                if !find_host(&hosts, &h) {
                    hosts.push(h);
                }
                proof {
                    assert forall|h2: Seq<char>|
                        holds_host(hosts@, h2) <==> exists|j: int|
                            0 <= j < i + 1 && #[trigger] host_parse(host_strings@[j]@) == Some(h2) by {
                        if holds_host(hosts@, h2) {
                            let k = choose|k: int| 0 <= k < hosts@.len() && #[trigger] hosts@[k]@ == h2;
                            if k < old_hosts.len() {
                                assert(old_hosts[k]@ == h2);
                                assert(holds_host(old_hosts, h2));
                            } else {
                                assert(host_parse(host_strings@[i as int]@) == Some(h2));
                            }
                        }
                        if exists|j: int| 0 <= j < i + 1 && #[trigger] host_parse(host_strings@[j]@) == Some(h2) {
                            let j = choose|j: int| 0 <= j < i + 1 && #[trigger] host_parse(host_strings@[j]@) == Some(h2);
                            if j < i {
                                assert(holds_host(old_hosts, h2));
                                let k = choose|k: int| 0 <= k < old_hosts.len() && #[trigger] old_hosts[k]@ == h2;
                                assert(hosts@[k]@ == h2);
                            } else if holds_host(old_hosts, h2) {
                                let k = choose|k: int| 0 <= k < old_hosts.len() && #[trigger] old_hosts[k]@ == h2;
                                assert(hosts@[k]@ == h2);
                            } else {
                                assert(hosts@[hosts@.len() - 1]@ == h2);
                            }
                        }
                    }
                    assert forall|a: int, b: int| 0 <= a < b < hosts@.len() implies hosts@[a]@ != hosts@[b]@ by {
                        if b == old_hosts.len() {
                            assert(hosts@[a] == old_hosts[a]);
                        }
                    }
                }
            },
            None => {
                return Err(host_strings[i].clone());
            },
        }
        i += 1;
    }
    Ok(hosts)
}

} // verus!
