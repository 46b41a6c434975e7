use googol::gateway::load_balancer::{LBResult, LoadBalancer};
use googol::gateway::queue::Queue;
use googol::gateway::status::{GatewayStatus, ResponseTime};
use googol::gateway::{
    admit_outlinks, consult_target, enqueue_url, finish_consult, finish_search, status_snapshot,
};
use googol::GoogolStatus;

fn balancer(n: usize) -> LoadBalancer {
    let addresses: Vec<String> = (0..n).map(|i| format!("127.0.0.1:{}", 50052 + i)).collect();
    LoadBalancer::new(&addresses)
}

#[test]
fn send_until_returns_first_success() {
    let mut lb = balancer(3);
    lb.barrels[2].online = true;
    match lb.send_until(vec![None, Some(("second", 7)), Some(("third", 9))]) {
        LBResult::Online(r, offline, rt) => {
            assert_eq!(r, "second");
            assert_eq!(offline, 1);
            assert_eq!(rt.total_millis, 7);
            assert_eq!(rt.count, 1);
        }
        LBResult::Offline(_) => panic!("expected a response"),
    }
    assert!(!lb.barrels[0].online);
    assert!(lb.barrels[1].online);
    assert!(lb.barrels[2].online);
}

#[test]
fn broadcast_attempts_every_barrel() {
    let mut lb = balancer(3);
    match lb.broadcast(vec![Some((1, 10)), None, Some((3, 30))]) {
        LBResult::Online(responses, offline, rt) => {
            assert_eq!(responses, vec![1, 3]);
            assert_eq!(offline, 1);
            assert_eq!(rt.total_millis, 40);
            assert_eq!(rt.count, 2);
        }
        LBResult::Offline(_) => panic!("expected responses"),
    }
    let flags: Vec<bool> = lb.barrels.iter().map(|b| b.online).collect();
    assert_eq!(flags, vec![true, false, true]);
}

#[test]
fn broadcast_with_every_barrel_down_is_offline() {
    let mut lb = balancer(2);
    match lb.broadcast::<u8>(vec![None, None]) {
        LBResult::Offline(n) => assert_eq!(n, 2),
        LBResult::Online(..) => panic!("no barrel answered"),
    }
}

#[test]
fn all_barrels_offline_search_is_unavailable() {
    let mut lb = balancer(2);
    let mut status = GatewayStatus::new();
    let result = lb.send_until::<Vec<String>>(vec![None, None]);
    assert!(matches!(result, LBResult::Offline(2)));
    let (code, pages) = finish_search(&mut status, &vec!["rust".to_string()], result);
    assert_eq!(code, GoogolStatus::UnavailableBarrels);
    assert!(pages.is_none());
    assert_eq!(status.top_searches.count("rust"), 0);
    assert_eq!(status.response_time.count, 0);
    assert!(lb.get_barrels_status().iter().all(|b| !b.online));
}

#[test]
fn successful_search_is_recorded() {
    let mut status = GatewayStatus::new();
    let words = vec!["rust".to_string(), "web".to_string(), "rust".to_string()];
    let mut rt = ResponseTime::new();
    rt.new_sample(50);
    let (code, pages) = finish_search(&mut status, &words, LBResult::Online(vec!["p"], 0, rt));
    assert_eq!(code, GoogolStatus::Success);
    assert_eq!(pages, Some(vec!["p"]));
    assert_eq!(status.top_searches.count("rust"), 2);
    assert_eq!(status.top_searches.count("web"), 1);
    assert_eq!(status.response_time.total_millis, 50);
    assert_eq!(status.response_time.count, 1);
    assert_eq!(status.top10(), vec!["rust".to_string(), "web".to_string()]);
}

#[test]
fn response_time_mean_of_samples() {
    let mut rt = ResponseTime::new();
    rt.new_sample(100);
    rt.new_sample(200);
    rt.new_sample(300);
    assert_eq!(rt.count, 3);
    assert_eq!(rt.total_millis, 600);
    assert_eq!(rt.total_millis as f64 / rt.count as f64, 200.0);
}

#[test]
fn response_time_merge_weights_by_count() {
    let mut a = ResponseTime { total_millis: 300, count: 3 };
    let b = ResponseTime { total_millis: 500, count: 1 };
    a.update(&b);
    assert_eq!(a.total_millis, 800);
    assert_eq!(a.count, 4);
    let mut full = ResponseTime { total_millis: u64::MAX, count: 1 };
    full.new_sample(5);
    assert_eq!(full.total_millis, u64::MAX);
}

#[test]
fn enqueue_then_dequeue_scenario() {
    let mut queue = Queue::create();
    let (status, list) = enqueue_url(&mut queue, "https://a.example/");
    assert_eq!(status, GoogolStatus::Success);
    assert_eq!(list, vec!["https://a.example/".to_string()]);
    assert_eq!(queue.dequeue(), Some("https://a.example/".to_string()));
    let (status, _) = enqueue_url(&mut queue, "https://a.example/");
    assert_eq!(status, GoogolStatus::AlreadyIndexedUrl);
}

#[test]
fn enqueue_invalid_url_is_refused() {
    let mut queue = Queue::create();
    let (status, list) = enqueue_url(&mut queue, "not a url");
    assert_eq!(status, GoogolStatus::InvalidUrl);
    assert!(list.is_empty());
    assert!(queue.into_vec().is_empty());
}

#[test]
fn outlinks_are_admitted_in_order() {
    let mut queue = Queue::create();
    let links = vec![
        "https://b.example".to_string(),
        "::bad::".to_string(),
        "https://a.example/x".to_string(),
        "https://b.example/".to_string(),
    ];
    admit_outlinks(&mut queue, &links);
    assert_eq!(
        queue.into_vec(),
        vec!["https://b.example/".to_string(), "https://a.example/x".to_string()]
    );
}

#[test]
fn status_snapshot_after_enqueue() {
    let mut queue = Queue::create();
    let lb = balancer(2);
    let status = GatewayStatus::new();
    queue.enqueue("u1".to_string());
    let snapshot = status_snapshot(&status, &lb, &queue);
    assert_eq!(snapshot.queue, vec!["u1".to_string()]);
    assert_eq!(snapshot.response_time.count, 0);
    assert_eq!(snapshot.response_time.total_millis, 0);
    assert!(snapshot.top10_searches.is_empty());
    assert_eq!(snapshot.barrels.len(), 2);
    assert_eq!(snapshot.barrels[0].address, "127.0.0.1:50052");
}

#[test]
fn status_codes_round_trip() {
    for s in [
        GoogolStatus::Success,
        GoogolStatus::Error,
        GoogolStatus::InvalidUrl,
        GoogolStatus::AlreadyIndexedUrl,
        GoogolStatus::UnavailableBarrels,
    ] {
        assert_eq!(GoogolStatus::from_code(s.code()), Some(s));
    }
    assert_eq!(GoogolStatus::UnavailableBarrels.code(), 4);
    assert_eq!(GoogolStatus::from_code(9), None);
}

#[test]
fn consult_outcomes() {
    assert_eq!(consult_target("not a url"), Err(GoogolStatus::InvalidUrl));
    assert_eq!(consult_target("https://x.example"), Ok("https://x.example/".to_string()));
    let (code, links) = finish_consult::<Vec<String>>(LBResult::Offline(2));
    assert_eq!(code, GoogolStatus::UnavailableBarrels);
    assert!(links.is_none());
    let (code, links) = finish_consult(LBResult::Online(vec!["a".to_string()], 1, ResponseTime::new()));
    assert_eq!(code, GoogolStatus::Success);
    assert_eq!(links, Some(vec!["a".to_string()]));
}

#[test]
fn empty_balancer_is_offline() {
    let mut lb = LoadBalancer::new(&vec![]);
    assert!(matches!(lb.send_until::<u8>(vec![]), LBResult::Offline(0)));
    assert!(matches!(lb.broadcast::<u8>(vec![]), LBResult::Offline(0)));
}

#[test]
fn top_ten_words_are_distinct_and_ranked() {
    let mut status = GatewayStatus::new();
    let mut words: Vec<String> = Vec::new();
    for i in 0..12 {
        for _ in 0..(i + 1) {
            words.push(format!("w{}", i));
        }
    }
    finish_search(&mut status, &words, LBResult::Online((), 0, ResponseTime::new()));
    let top = status.top10();
    assert_eq!(top.len(), 10);
    assert_eq!(top[0], "w11");
    assert_eq!(top[9], "w2");
    let distinct: std::collections::HashSet<&String> = top.iter().collect();
    assert_eq!(distinct.len(), 10);
}
