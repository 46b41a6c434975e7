use googol::gateway::canonical_url;
use googol::gateway::queue::Queue;
use googol::settings::DomainsFilter;
use googol::GoogolStatus;

fn url(s: &str) -> String {
    canonical_url(s).unwrap()
}

#[test]
fn test_enqueue_and_duplicate() {
    let mut queue = Queue::default();
    let url = url("https://example.com");

    let (status, list) = queue.enqueue(url.clone());
    assert_eq!(status, GoogolStatus::Success);
    assert_eq!(list, vec![url.as_str()]);

    let (status_dup, list_dup) = queue.enqueue(url.clone());
    assert_eq!(status_dup, GoogolStatus::AlreadyIndexedUrl);
    assert_eq!(list_dup, vec![url.as_str()]);

    assert_eq!(queue.into_vec(), vec![url.as_str()]);
}

#[test]
fn test_dequeue() {
    let mut queue = Queue::default();

    let url1 = url("https://example.com/1");
    let url2 = url("https://example.com/2");

    queue.enqueue(url1.clone());
    queue.enqueue(url2.clone());

    let dequeued = queue.dequeue();
    assert_eq!(dequeued, Some(url1));
    assert_eq!(queue.into_vec(), vec![url2.to_string()]);

    let dequeued2 = queue.dequeue();
    assert_eq!(dequeued2, Some(url2));
    assert_eq!(queue.into_vec(), Vec::<String>::new());

    assert_eq!(queue.dequeue(), None);
}

#[test]
fn test_into_vec() {
    let mut queue = Queue::default();

    let url1 = url("https://foo.com");
    let url2 = url("https://bar.com");

    queue.enqueue(url1.clone());
    queue.enqueue(url2.clone());

    let vec_representation = queue.into_vec();
    assert_eq!(vec_representation, vec![url1.to_string(), url2.to_string()]);
}

#[test]
fn test_clear_seen() {
    let mut queue = Queue::default();

    let url = url("https://test.com");

    queue.enqueue(url.clone());

    assert!(queue.has_seen(&url));

    queue.clear_seen();

    assert!(!queue.seen_is_empty());

    let (status, list) = queue.enqueue(url.clone());
    assert_eq!(status, GoogolStatus::AlreadyIndexedUrl);
    assert_eq!(list, vec![url.to_string()]);

    queue.dequeue();
    queue.clear_seen();

    assert!(queue.seen_is_empty());

    let (status, list) = queue.enqueue(url.clone());
    assert_eq!(status, GoogolStatus::Success);
    assert_eq!(list, vec![url.to_string()]);
}

#[test]
fn canonical_url_adds_root_path() {
    assert_eq!(canonical_url("https://example.com"), Some("https://example.com/".to_string()));
    assert_eq!(canonical_url("not a url"), None);
}

#[test]
fn enqueue_many_times_keeps_one_entry() {
    let mut queue = Queue::create();
    let u = url("https://a.example/");
    assert_eq!(queue.enqueue(u.clone()).0, GoogolStatus::Success);
    for _ in 0..5 {
        let (status, list) = queue.enqueue(u.clone());
        assert_eq!(status, GoogolStatus::AlreadyIndexedUrl);
        assert_eq!(list, vec![u.clone()]);
    }
}

#[test]
fn dequeue_keeps_url_seen() {
    let mut queue = Queue::create();
    let u = url("https://a.example/");
    queue.enqueue(u.clone());
    assert_eq!(queue.dequeue(), Some(u.clone()));
    let (status, list) = queue.enqueue(u.clone());
    assert_eq!(status, GoogolStatus::AlreadyIndexedUrl);
    assert!(list.is_empty());
}

#[test]
fn queued_urls_are_seen_and_clear_seen_keeps_only_queued() {
    let mut queue = Queue::create();
    let a = url("https://a.example/");
    let b = url("https://b.example/");
    queue.enqueue(a.clone());
    queue.enqueue(b.clone());
    assert!(queue.has_seen(&a) && queue.has_seen(&b));
    queue.dequeue();
    queue.clear_seen();
    assert!(!queue.has_seen(&a));
    assert!(queue.has_seen(&b));
}

#[test]
fn blacklisted_host_is_refused() {
    let filter = DomainsFilter { whitelist: vec![], blacklist: vec!["bad.com".to_string()] };
    let mut queue = Queue::create().with_domains_filter(&filter);
    let (status, list) = queue.enqueue(url("https://bad.com/x"));
    assert_eq!(status, GoogolStatus::InvalidUrl);
    assert!(list.is_empty());
    let (status, _) = queue.enqueue(url("https://good.com/x"));
    assert_eq!(status, GoogolStatus::Success);
}

#[test]
fn whitelist_admits_only_listed_hosts() {
    let filter = DomainsFilter { whitelist: vec!["example.com".to_string()], blacklist: vec![] };
    let mut queue = Queue::create().with_domains_filter(&filter);
    assert_eq!(queue.enqueue(url("https://other.org/")).0, GoogolStatus::InvalidUrl);
    assert_eq!(queue.enqueue(url("https://example.com/a")).0, GoogolStatus::Success);
    assert_eq!(queue.into_vec(), vec!["https://example.com/a".to_string()]);
}
