use googol::barrel::{consult_backlinks, consult_outlinks, index_page, valid_outlinks};
use googol::index_store::IndexStore;
use googol::page::Page;
use googol::GoogolStatus;

#[test]
fn malformed_outlinks_are_dropped() {
    let links = vec!["https://a.example".to_string(), "nope".to_string(), "https://b.example/x".to_string()];
    assert_eq!(
        valid_outlinks(&links),
        vec!["https://a.example/".to_string(), "https://b.example/x".to_string()]
    );
}

#[test]
fn index_and_consult() {
    let mut store = IndexStore::new(String::new());
    let page = Page::create("https://x.example/".to_string());
    index_page(&mut store, &page, &vec!["Rust".to_string()], &vec!["https://y.example".to_string(), "bad".to_string()]);
    let (status, outlinks) = consult_outlinks(&store, "https://x.example");
    assert_eq!(status, GoogolStatus::Success);
    assert_eq!(outlinks, vec!["https://y.example/".to_string()]);
    let (status, backlinks) = consult_backlinks(&store, "https://y.example/");
    assert_eq!(status, GoogolStatus::Success);
    assert_eq!(backlinks, vec!["https://x.example/".to_string()]);
    let (status, links) = consult_backlinks(&store, "not a url");
    assert_eq!(status, GoogolStatus::InvalidUrl);
    assert!(links.is_empty());
    let (status, _) = consult_outlinks(&store, "not a url");
    assert_eq!(status, GoogolStatus::InvalidUrl);
    assert_eq!(store.search(&vec!["rust".to_string()]).len(), 1);
}

#[test]
fn indexing_keeps_recorded_size_and_path() {
    let mut store = IndexStore::new("barrel.json".to_string());
    store.record_size(123);
    let page = Page::create("https://x.example/".to_string());
    index_page(&mut store, &page, &vec!["a".to_string()], &vec![]);
    assert_eq!(store.size_bytes(), 123);
    assert_eq!(store.filepath(), "barrel.json");
    assert_eq!(store.indexed_count(), 1);
    index_page(&mut store, &page, &vec!["b".to_string()], &vec![]);
    assert_eq!(store.indexed_count(), 1);
}
