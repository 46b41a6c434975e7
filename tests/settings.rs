use googol::settings::{deserialize_hosts, DomainsFilter};

fn config_filter() -> DomainsFilter {
    let strings = |v: &[&str]| v.iter().map(|s| s.to_string()).collect::<Vec<_>>();
    DomainsFilter {
        whitelist: deserialize_hosts(&strings(&["example.com", "test.org"])).unwrap(),
        blacklist: deserialize_hosts(&strings(&["bad.com"])).unwrap(),
    }
}

#[test]
fn test_url_domain() {
    let filter = config_filter();

    let url1 = "https://example.com/search?q=rust";
    let url2 = "https://bad.com/foo/bar/search?q=rust";

    assert!(filter.is_whitelisted(url1));
    assert!(!filter.is_blacklisted(url1));
    assert!(!filter.is_whitelisted(url2));
    assert!(filter.is_blacklisted(url2));
}

#[test]
fn hosts_are_parsed_and_deduplicated() {
    let hosts = deserialize_hosts(&vec!["EXAMPLE.com".to_string(), "example.com".to_string()]).unwrap();
    assert_eq!(hosts, vec!["example.com".to_string()]);
}

#[test]
fn invalid_host_is_reported() {
    let bad = "exa mple.com".to_string();
    assert_eq!(deserialize_hosts(&vec!["ok.com".to_string(), bad.clone()]), Err(bad));
}

#[test]
fn empty_filter_admits_everything() {
    let filter = DomainsFilter::new();
    assert!(filter.admits("https://anything.example/"));
    assert!(!filter.is_blacklisted("not a url"));
    assert!(!filter.is_whitelisted("not a url"));
}

#[test]
fn filter_admission() {
    let filter = config_filter();
    assert!(filter.admits("https://test.org/x"));
    assert!(!filter.admits("https://bad.com/"));
    assert!(!filter.admits("https://unlisted.net/"));
}
