use googol::gateway::canonical_url;
use googol::index_store::IndexStore;
use googol::page::Page;
use std::collections::HashSet;

fn url(s: &str) -> String {
    canonical_url(s).unwrap()
}

fn strings(v: &[&str]) -> Vec<String> {
    v.iter().map(|w| w.to_string()).collect()
}

fn urls(v: &[&str]) -> Vec<String> {
    v.iter().map(|u| url(u)).collect()
}

fn create_page(u: &str, title: Option<&str>) -> Page {
    let mut page = Page::create(url(u));
    if let Some(t) = title {
        page = page.with_title(t.to_string());
    }
    page
}

/// Three pages with words; pages elsewhere link to page1 twice, page2 once and
/// page3 three times.
fn create_index_store() -> IndexStore {
    let mut index_store = IndexStore::new(String::new());

    let page1 = Page::create(url("https://example.com/page1")).with_title("Page One".to_string());
    index_store.store(
        &page1,
        &strings(&["rust", "programming", "language"]),
        &urls(&["https://link1.com", "https://link2.com"]),
    );

    let page2 = Page::create(url("https://example.com/page2")).with_title("Page Two".to_string());
    index_store.store(&page2, &strings(&["rust", "web"]), &urls(&["https://link3.com"]));

    let page3 = Page::create(url("https://example.com/page3")).with_title("Page Three".to_string());
    index_store.store(
        &page3,
        &strings(&["programming", "tutorial"]),
        &urls(&["https://link4.com", "https://link5.com", "https://link6.com"]),
    );

    for (source, target) in [
        ("https://link1.com", "https://example.com/page1"),
        ("https://link2.com", "https://example.com/page1"),
        ("https://link3.com", "https://example.com/page2"),
        ("https://link4.com", "https://example.com/page3"),
        ("https://link5.com", "https://example.com/page3"),
        ("https://link6.com", "https://example.com/page3"),
    ] {
        index_store.store(&Page::create(url(source)), &vec![], &urls(&[target]));
    }

    index_store
}

fn url_set(pages: &[Page]) -> HashSet<String> {
    pages.iter().map(|p| p.url.clone()).collect()
}

#[test]
fn test_search_single_word() {
    let index_store = create_index_store();

    let results = index_store.search(&vec!["rust".to_string()]);
    let urls = url_set(&results);

    assert_eq!(urls.len(), 2);
    assert!(urls.contains(&url("https://example.com/page1")));
    assert!(urls.contains(&url("https://example.com/page2")));
}

#[test]
fn test_search_multiple_words() {
    let index_store = create_index_store();

    let results = index_store.search(&strings(&["rust", "programming"]));
    let urls = url_set(&results);

    assert_eq!(urls.len(), 1);
    assert!(urls.contains(&url("https://example.com/page1")));
}

#[test]
fn test_search_no_match() {
    let index_store = create_index_store();

    let results = index_store.search(&vec!["nonexistent".to_string()]);
    assert!(results.is_empty());

    let results2 = index_store.search(&vec!["rust".to_string(), "nonexistent".to_string()]);
    assert!(results2.is_empty());
}

#[test]
fn test_search_empty_input() {
    let index_store = create_index_store();

    let results = index_store.search(&vec![]);
    assert!(results.is_empty());
}

#[test]
fn test_search_case_insensitivity() {
    let index_store = create_index_store();

    let results_lower = index_store.search(&vec!["rust".to_string()]);
    let results_upper = index_store.search(&vec!["RUST".to_string()]);

    assert_eq!(url_set(&results_lower), url_set(&results_upper));
}

#[test]
fn test_search_by_relevance() {
    let index_store = create_index_store();

    let sorted_pages = index_store.search_by_relevance(&vec!["rust".to_string()]);

    assert_eq!(sorted_pages.len(), 2);
    let urls: Vec<_> = sorted_pages.iter().map(|p| p.url.clone()).collect();

    assert_eq!(urls[0], url("https://example.com/page1"));
    assert_eq!(urls[1], url("https://example.com/page2"));

    let backlink_counts: Vec<_> = sorted_pages
        .iter()
        .map(|p| index_store.consult_backlinks(&p.url).len())
        .collect();

    assert!(backlink_counts.windows(2).all(|w| w[0] >= w[1]));
}

#[test]
fn test_search_by_relevance_empty_results() {
    let index_store = create_index_store();

    let results = index_store.search_by_relevance(&vec!["nonexistent".to_string()]);
    assert!(results.is_empty());
}

#[test]
fn test_search_by_relevance_no_backlinks() {
    let mut index_store = create_index_store();

    let page_no_backlinks = create_page("https://example.com/page4", Some("Page Four"));
    index_store.store(&page_no_backlinks, &strings(&["tutorial"]), &vec![]);

    let results = index_store.search_by_relevance(&vec!["tutorial".to_string()]);
    assert_eq!(results.len(), 2);
    assert_eq!(results[0].url, url("https://example.com/page3"));
}

#[test]
fn forward_and_inverted_links_agree() {
    let index_store = create_index_store();
    let page1 = url("https://example.com/page1");
    let out: HashSet<String> = index_store.consult_outlinks(&page1).into_iter().collect();
    assert_eq!(out, urls(&["https://link1.com", "https://link2.com"]).into_iter().collect());
    for o in out {
        assert!(index_store.consult_backlinks(&o).contains(&page1));
    }
    assert!(index_store.consult_backlinks(&url("https://nowhere.example")).is_empty());
    assert!(index_store.consult_outlinks(&url("https://nowhere.example")).is_empty());
}

#[test]
fn search_two_words_is_intersection() {
    let index_store = create_index_store();
    let both = url_set(&index_store.search(&strings(&["rust", "programming"])));
    let a = url_set(&index_store.search(&strings(&["rust"])));
    let b = url_set(&index_store.search(&strings(&["programming"])));
    assert_eq!(both, a.intersection(&b).cloned().collect());
}

#[test]
fn storing_twice_changes_nothing() {
    let mut index_store = create_index_store();
    let before = index_store.indexed_count();
    let page1 = Page::create(url("https://example.com/page1")).with_title("Page One".to_string());
    index_store.store(&page1, &strings(&["rust"]), &urls(&["https://link1.com"]));
    assert_eq!(index_store.indexed_count(), before);
    assert_eq!(index_store.consult_outlinks(&page1.url).len(), 2);
}

#[test]
fn store_records_page_and_lowercases_words() {
    let mut index_store = IndexStore::new("index.json".to_string());
    assert_eq!(index_store.filepath(), "index.json");
    assert_eq!(index_store.size_bytes(), 0);
    let page = create_page("https://x.example/", Some("X"));
    index_store.store(&page, &strings(&["Rust"]), &vec![]);
    let found = index_store.search(&strings(&["rust"]));
    assert_eq!(found.len(), 1);
    assert_eq!(found[0].title.as_deref(), Some("X"));
    let recorded = index_store.page_of(&page.url).unwrap();
    assert_eq!(recorded.title.as_deref(), Some("X"));
    assert!(index_store.page_of(&url("https://y.example/")).is_none());
    index_store.record_size(42);
    assert_eq!(index_store.size_bytes(), 42);
}

#[test]
fn index_then_search_scenario() {
    let mut store = IndexStore::new(String::new());
    let x = Page::create(url("https://x/"));
    let y = Page::create(url("https://y/"));
    store.store(&x, &strings(&["rust", "fast"]), &vec![]);
    store.store(&y, &strings(&["rust", "web"]), &urls(&["https://x/"]));
    assert_eq!(store.search(&strings(&["rust"])).len(), 2);
    let ranked: Vec<String> = store
        .search_by_relevance(&strings(&["rust"]))
        .into_iter()
        .map(|p| p.url)
        .collect();
    assert_eq!(ranked, vec![url("https://x/"), url("https://y/")]);
    let both: Vec<String> = store
        .search(&strings(&["rust", "web"]))
        .into_iter()
        .map(|p| p.url)
        .collect();
    assert_eq!(both, vec![url("https://y/")]);
}

#[test]
fn snapshot_restores_to_an_equal_store() {
    let store = create_index_store();
    let snap = store.snapshot();
    assert_eq!(snap.index.len(), 7);
    let restored = IndexStore::restore(snap, "file.json".to_string(), 10).expect("consistent snapshot");
    assert_eq!(restored.filepath(), "file.json");
    assert_eq!(restored.size_bytes(), 10);
    assert_eq!(restored.indexed_count(), store.indexed_count());
    let words = strings(&["rust"]);
    assert_eq!(url_set(&restored.search(&words)), url_set(&store.search(&words)));
    let page1 = url("https://example.com/page1");
    assert_eq!(restored.consult_backlinks(&page1), store.consult_backlinks(&page1));
    assert_eq!(restored.page_of(&page1).unwrap().title.as_deref(), Some("Page One"));
}

#[test]
fn inconsistent_snapshot_is_refused() {
    let store = create_index_store();
    let mut snap = store.snapshot();
    snap.invert_index.pop();
    assert!(IndexStore::restore(snap, String::new(), 0).is_none());

    let mut snap = store.snapshot();
    let first = snap.backlinks[0].clone();
    snap.backlinks.push(first);
    assert!(IndexStore::restore(snap, String::new(), 0).is_none());
}
