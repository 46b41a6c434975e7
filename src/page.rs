//! A web page record: its URL, metadata, and the time it was indexed.
use crate::fishfish::FishDomainCategory;
use core::cmp::Ordering;
use vstd::prelude::*;

verus! {

/// Milliseconds in one day.
pub const MILLIS_PER_DAY: i64 = 86_400_000;

/// The day (counted from the Unix epoch, UTC) of a millisecond timestamp.
pub open spec fn day_of(millis: i64) -> int {
    millis as int / MILLIS_PER_DAY as int
}

/// The day (counted from the Unix epoch, UTC) of a millisecond timestamp.
pub fn day_number(millis: i64) -> (r: i64)
    ensures
        r as int == day_of(millis),
{
    if millis >= 0 {
        millis / MILLIS_PER_DAY
    } else {
        let p = -(millis + 1);
        let q = p / MILLIS_PER_DAY;
        proof {
            let d = MILLIS_PER_DAY as int;
            let r = p as int % d;
            vstd::arithmetic::div_mod::lemma_fundamental_div_mod(p as int, d);
            vstd::arithmetic::div_mod::lemma_fundamental_div_mod_converse(
                millis as int,
                d,
                -(q as int) - 1,
                d - r - 1,
            );
        }
        -q - 1
    }
}

/// A page is identified by its URL; two records of one URL on one day are the
/// same page.
#[derive(Debug)]
pub struct Page {
    /// The absolute URL of the page.
    pub url: String,
    /// Title of the page, if any.
    pub title: Option<String>,
    /// Summary or description of the page, if any.
    pub summary: Option<String>,
    /// Icon URL or identifier, if any.
    pub icon: Option<String>,
    /// When the page was indexed, in milliseconds since the Unix epoch (UTC).
    pub timestamp: i64,
    /// Reputation category of the page's domain, if known.
    pub category: Option<FishDomainCategory>,
}

fn copy_text(s: &Option<String>) -> (r: Option<String>)
    ensures
        r == *s,
{
    match s {
        Some(t) => Some(t.clone()),
        None => None,
    }
}

impl Page {
    /// Two records denote the same page: same URL, same day.
    pub open spec fn same_page(&self, other: &Page) -> bool {
        self.url@ == other.url@ && day_of(self.timestamp) == day_of(other.timestamp)
    }

    /// A page with the given URL, no metadata, indexed at the epoch.
    pub fn create(url: String) -> (r: Page)
        ensures
            r.url == url,
            r.title is None,
            r.summary is None,
            r.icon is None,
            r.timestamp == 0,
            r.category is None,
    {
        Page { url, title: None, summary: None, icon: None, timestamp: 0, category: None }
    }

    /// The page with its title set.
    pub fn with_title(self, title: String) -> (r: Page)
        ensures
            r == (Page { title: Some(title), ..self }),
    {
        Page { title: Some(title), ..self }
    }

    /// The page with its indexing time set.
    pub fn with_timestamp(self, timestamp: i64) -> (r: Page)
        ensures
            r == (Page { timestamp, ..self }),
    {
        Page { timestamp, ..self }
    }

    /// A copy of the record.
    pub fn duplicate(&self) -> (r: Page)
        ensures
            r == *self,
    {
        Page {
            url: self.url.clone(),
            title: copy_text(&self.title),
            summary: copy_text(&self.summary),
            icon: copy_text(&self.icon),
            timestamp: self.timestamp,
            category: self.category,
        }
    }
}

impl PartialEq for Page {
    fn eq(&self, other: &Page) -> (r: bool)
        ensures
            r == self.same_page(other),
    {
        self.url == other.url && day_number(self.timestamp) == day_number(other.timestamp)
    }
}

impl vstd::std_specs::cmp::PartialEqSpecImpl for Page {
    open spec fn obeys_eq_spec() -> bool {
        true
    }

    open spec fn eq_spec(&self, other: &Page) -> bool {
        self.same_page(other)
    }
}

/// How two timestamps compare.
pub open spec fn order_of(a: i64, b: i64) -> Ordering {
    if a < b {
        Ordering::Less
    } else if a == b {
        Ordering::Equal
    } else {
        Ordering::Greater
    }
}

/// Pages are ordered by the time they were indexed.
impl PartialOrd for Page {
    fn partial_cmp(&self, other: &Page) -> (r: Option<Ordering>)
        ensures
            r == Some(order_of(self.timestamp, other.timestamp)),
    {
        if self.timestamp < other.timestamp {
            Some(Ordering::Less)
        } else if self.timestamp == other.timestamp {
            Some(Ordering::Equal)
        } else {
            Some(Ordering::Greater)
        }
    }
}

impl vstd::std_specs::cmp::PartialOrdSpecImpl for Page {
    open spec fn obeys_partial_cmp_spec() -> bool {
        true
    }

    open spec fn partial_cmp_spec(&self, other: &Page) -> Option<Ordering> {
        Some(order_of(self.timestamp, other.timestamp))
    }
}

} // verus!
