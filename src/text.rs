//! Text and URL primitives that the library takes from `std` and the `url`
//! crate. Each result is named by a spec function of its arguments alone.
use vstd::prelude::*;

verus! {

/// The lowercase form of a string, as `str::to_lowercase` computes it.
pub uninterp spec fn lower_of(s: Seq<char>) -> Seq<char>;

/// The serialization of the absolute URL parsed from a string, or `None`
/// where `url::Url::parse` rejects it.
pub uninterp spec fn url_parse(s: Seq<char>) -> Option<Seq<char>>;

/// The host of the URL parsed from a string, or `None` where the string is
/// no absolute URL or the URL has no host.
pub uninterp spec fn url_host(s: Seq<char>) -> Option<Seq<char>>;

/// The serialization of the host parsed from a string, or `None` where
/// `url::Host::parse` rejects it.
pub uninterp spec fn host_parse(s: Seq<char>) -> Option<Seq<char>>;

/// Relies on `str::to_lowercase`: the result depends on the characters
/// alone, and the empty string stays empty.
#[verifier::external_body]
pub(crate) fn lowercase(s: &str) -> (r: String)
    ensures
        r@ == lower_of(s@),
        s@.len() == 0 ==> r@.len() == 0,
{
    s.to_lowercase()
}

/// Relies on `url::Url::parse` and `Url::as_str`: the canonical serialization
/// of an absolute URL, or `None` where parsing fails.
#[verifier::external_body]
pub(crate) fn parse_url(s: &str) -> (r: Option<String>)
    ensures
        r matches Some(u) ==> url_parse(s@) == Some(u@),
        r is None ==> url_parse(s@) is None,
{
    match url::Url::parse(s) {
        Ok(u) => Some(u.as_str().to_string()),
        Err(_) => None,
    }
}

/// Relies on `url::Url::parse` and `Url::host_str`: the host of an absolute
/// URL, or `None` where parsing fails or the URL has no host.
#[verifier::external_body]
pub(crate) fn host_of_url(s: &str) -> (r: Option<String>)
    ensures
        r matches Some(h) ==> url_host(s@) == Some(h@),
        r is None ==> url_host(s@) is None,
{
    match url::Url::parse(s) {
        Ok(u) => u.host_str().map(|h| h.to_string()),
        Err(_) => None,
    }
}

/// Relies on `url::Host::parse` and `Host`'s `Display`: the serialization of a
/// domain or an IP address, or `None` where parsing fails.
#[verifier::external_body]
pub(crate) fn parse_host(s: &str) -> (r: Option<String>)
    ensures
        r matches Some(h) ==> host_parse(s@) == Some(h@),
        r is None ==> host_parse(s@) is None,
{
    match url::Host::parse(s) {
        Ok(h) => Some(h.to_string()),
        Err(_) => None,
    }
}

} // verus!
