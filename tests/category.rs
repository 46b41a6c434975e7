use googol::fishfish::FishDomainCategory;
use googol::fishfish::FishDomainCategory::{Malware, Phishing, Safe, Unknown};
use googol::fishfish::{read_lookup, FishDomain, FishDomainAnswer, FishFish, Lookup};

#[test]
fn test_category_to_string() {
    assert_eq!(Safe.to_string(), "safe");
    assert_eq!(Malware.to_string(), "malware");
    assert_eq!(Phishing.to_string(), "phishing");
    assert_eq!(Unknown.to_string(), "unknown");
}

#[test]
fn test_category_from_string() {
    assert_eq!(FishDomainCategory::parse("safe"), Ok(Safe));
    assert_eq!(FishDomainCategory::parse("malware"), Ok(Malware));
    assert_eq!(FishDomainCategory::parse("phishing"), Ok(Phishing));
    assert_eq!(FishDomainCategory::parse("unknown"), Ok(Unknown));
    assert_eq!(FishDomainCategory::parse(""), Err(()));
    assert_eq!(FishDomainCategory::parse("asdfadsf"), Err(()));
}

#[test]
fn category_name_in_other_case_is_accepted() {
    assert_eq!(FishDomainCategory::parse("PHISHING"), Ok(FishDomainCategory::Phishing));
    assert_eq!(FishDomainCategory::from_string("Safe".to_string()), Some(FishDomainCategory::Safe));
    assert_eq!(FishDomainCategory::from_string(String::new()), None);
    assert_eq!(FishDomainCategory::from_string("nope".to_string()), None);
}

fn record(category: FishDomainCategory) -> FishDomain {
    FishDomain {
        added: 1,
        category,
        checked: 2,
        description: "d".to_string(),
        domain: None,
        target: None,
    }
}

#[test]
fn lookups_are_cached() {
    let mut cache = FishFish::new();
    let host = "steam.example".to_string();
    assert_eq!(cache.cached_category(&host), None);
    assert_eq!(cache.record_lookup(&host, Lookup::Found(record(FishDomainCategory::Phishing))), FishDomainCategory::Phishing);
    assert_eq!(cache.cached_category(&host), Some(FishDomainCategory::Phishing));

    let other = "quiet.example".to_string();
    assert_eq!(cache.record_lookup(&other, Lookup::Refused), FishDomainCategory::Unknown);
    assert_eq!(cache.cached_category(&other), Some(FishDomainCategory::Unknown));

    let third = "garbled.example".to_string();
    assert_eq!(cache.record_lookup(&third, Lookup::Unreadable), FishDomainCategory::Unknown);
    assert_eq!(cache.cached_category(&third), None);
    assert_eq!(cache.cached_category(&host), Some(FishDomainCategory::Phishing));
}

fn answer(category: &str) -> FishDomainAnswer {
    FishDomainAnswer {
        added: 1,
        category: category.to_string(),
        checked: 2,
        description: "d".to_string(),
        domain: Some("x.example".to_string()),
        target: None,
    }
}

#[test]
fn reputation_answers_are_read() {
    assert!(matches!(read_lookup(false, Some(answer("safe"))), Lookup::Refused));
    assert!(matches!(read_lookup(true, None), Lookup::Unreadable));
    assert!(matches!(read_lookup(true, Some(answer("SAFE"))), Lookup::Unreadable));
    match read_lookup(true, Some(answer("malware"))) {
        Lookup::Found(d) => {
            assert_eq!(d.category, FishDomainCategory::Malware);
            assert_eq!(d.domain.as_deref(), Some("x.example"));
            assert_eq!(d.added, 1);
        }
        other => panic!("unexpected {:?}", other),
    }
}
