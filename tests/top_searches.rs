use googol::top_searches::TopSearches;

#[test]
fn test_top_searches() {
    let mut searches = TopSearches::new();

    searches.add_search("rust");
    searches.add_search("rust");
    searches.add_search("programming");
    searches.add_search("language");
    searches.add_search("rust");
    searches.add_search("performance");
    searches.add_search("code");
    searches.add_search("code");
    searches.add_search("code");
    searches.add_search("performance");
    searches.add_search("performance");
    searches.add_search("performance");

    let top_searches = searches.top_n(3);
    let expected_top_searches: Vec<(String, usize)> =
        [("performance", 4), ("code", 3), ("rust", 3)]
            .iter()
            .map(|(word, count)| (word.to_string(), *count))
            .collect();

    assert_eq!(top_searches, expected_top_searches);
}

#[test]
fn test_count() {
    let mut searches = TopSearches::new();

    assert_eq!(searches.count("rust"), 0);

    searches.add_search("rust");
    searches.add_search("rust");
    searches.add_search("programming");

    assert_eq!(searches.count("rust"), 2);
    assert_eq!(searches.count("programming"), 1);
    assert_eq!(searches.count("language"), 0);
}

#[test]
fn top_n_is_descending_and_bounded() {
    let mut searches = TopSearches::new();
    for (w, n) in [("a", 1), ("b", 5), ("c", 3), ("d", 2)] {
        for _ in 0..n {
            searches.add_search(w);
        }
    }
    let top = searches.top_n(10);
    assert_eq!(top.len(), 4);
    assert!(top.windows(2).all(|p| p[0].1 >= p[1].1));
    assert_eq!(top[0], ("b".to_string(), 5));
    assert_eq!(searches.top_n(2), vec![("b".to_string(), 5), ("c".to_string(), 3)]);
    assert!(searches.top_n(0).is_empty());
}

#[test]
fn top_n_of_nothing_is_empty() {
    let searches = TopSearches::new();
    assert!(searches.top_n(5).is_empty());
}

#[test]
fn top_n_length_is_bounded_by_distinct_words() {
    let mut searches = TopSearches::new();
    for w in ["a", "b", "a", "c", "a", "b"] {
        searches.add_search(w);
    }
    assert_eq!(searches.top_n(2).len(), 2);
    assert_eq!(searches.top_n(7).len(), 3);
}
