use chrono::{TimeZone, Utc};
use googol::page::{day_number, Page};

fn page(url: &str, title: Option<&str>, timestamp: i64) -> Page {
    let mut p = Page::create(url.to_string()).with_timestamp(timestamp);
    if let Some(t) = title {
        p = p.with_title(t.to_string());
    }
    p
}

#[test]
fn test_equality() {
    let now = Utc::now().timestamp_millis();
    let page1 = page("https://example.com/", Some("Title"), now);
    let page2 = page("https://example.com/", Some("Another Title"), now);

    assert_eq!(page1, page2);

    let date = Utc.with_ymd_and_hms(2025, 6, 1, 0, 0, 0).unwrap().timestamp_millis();

    let page1 = page("https://example.com/", None, date);
    let page2 = page("https://example.com/", None, date);

    assert_eq!(page1, page2);

    let later_date = Utc.with_ymd_and_hms(2025, 6, 2, 0, 0, 0).unwrap().timestamp_millis();
    let page3 = page("https://example.com/", None, later_date);

    assert_ne!(page1, page3);
}

#[test]
fn test_new_with_current_time() {
    let now = Utc::now().timestamp_millis();
    let p = page("https://example.com/", Some("Title"), now);

    assert_eq!(p.url, "https://example.com/");
    assert!(p.timestamp <= Utc::now().timestamp_millis());
}

#[test]
fn same_day_is_same_page() {
    let morning = Utc.with_ymd_and_hms(2025, 6, 1, 1, 0, 0).unwrap().timestamp_millis();
    let evening = Utc.with_ymd_and_hms(2025, 6, 1, 23, 0, 0).unwrap().timestamp_millis();
    assert_eq!(page("https://a/", None, morning), page("https://a/", Some("t"), evening));
    assert_ne!(page("https://a/", None, morning), page("https://b/", None, morning));
}

#[test]
fn day_numbers_floor_towards_past() {
    assert_eq!(day_number(0), 0);
    assert_eq!(day_number(86_399_999), 0);
    assert_eq!(day_number(86_400_000), 1);
    assert_eq!(day_number(-1), -1);
    assert_eq!(day_number(-86_400_000), -1);
    assert_eq!(day_number(-86_400_001), -2);
}

#[test]
fn duplicate_keeps_every_field() {
    let p = page("https://a/", Some("t"), 5);
    let d = p.duplicate();
    assert_eq!(d.url, p.url);
    assert_eq!(d.title, p.title);
    assert_eq!(d.timestamp, p.timestamp);
}

#[test]
fn test_ordering() {
    let ts1 = Utc::now().timestamp_millis() - 10_000;
    let ts2 = Utc::now().timestamp_millis();

    let page_old = page("https://example.com/1", None, ts1);
    let page_new = page("https://example.com/2", None, ts2);

    assert!(page_old < page_new);
    assert!(page_new > page_old);
}

#[test]
fn test_ordering_with_different_timestamps() {
    let page1 = page("https://example.com/", Some("Title"), 0);
    let page2 = page("https://example.com/", Some("Title"), 1_000);

    assert!(page1 < page2);
}
