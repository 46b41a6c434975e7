//! Coordination plane of a small distributed web search engine: the URL
//! frontier, the replicated index store, barrel load balancing and the
//! live-status aggregation, each with its contract proved by Verus.
use vstd::prelude::*;

pub mod barrel;
pub mod fishfish;
pub mod gateway;
pub mod index_store;
pub mod page;
pub mod ranking;
pub mod relation;
pub mod retry;
pub mod settings;
pub mod text;
pub mod top_searches;
pub mod words;

verus! {

/// Response status carried on the wire by every RPC of the system.
#[derive(Debug, Clone, Copy, PartialEq, Eq, Structural)]
pub enum GoogolStatus {
    Success,
    /// Generic error
    Error,
    InvalidUrl,
    AlreadyIndexedUrl,
    /// No barrel was online at the time of the request
    UnavailableBarrels,
}

impl GoogolStatus {
    pub open spec fn spec_code(self) -> i32 {
        match self {
            GoogolStatus::Success => 0,
            GoogolStatus::Error => 1,
            GoogolStatus::InvalidUrl => 2,
            GoogolStatus::AlreadyIndexedUrl => 3,
            GoogolStatus::UnavailableBarrels => 4,
        }
    }

    /// The wire code of the status.
    pub fn code(self) -> (r: i32)
        ensures
            r == self.spec_code(),
    {
        match self {
            GoogolStatus::Success => 0,
            GoogolStatus::Error => 1,
            GoogolStatus::InvalidUrl => 2,
            GoogolStatus::AlreadyIndexedUrl => 3,
            GoogolStatus::UnavailableBarrels => 4,
        }
    }

    /// The status of a wire code; `None` for a code that names no status.
    pub fn from_code(code: i32) -> (r: Option<GoogolStatus>)
        ensures
            r matches Some(s) ==> s.spec_code() == code,
            r is None <==> !(0 <= code <= 4),
    {
        match code {
            0 => Some(GoogolStatus::Success),
            1 => Some(GoogolStatus::Error),
            2 => Some(GoogolStatus::InvalidUrl),
            3 => Some(GoogolStatus::AlreadyIndexedUrl),
            4 => Some(GoogolStatus::UnavailableBarrels),
            _ => None,
        }
    }
}

} // verus!
