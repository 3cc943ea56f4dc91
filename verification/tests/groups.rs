use bunbun::cache_routes;
use bunbun::config::Route;
use bunbun::config::RouteGroup;
use bunbun::index::RouteIndex;

fn generate_external_routes(routes: &[(&str, &str)]) -> RouteIndex {
    let mut index = RouteIndex::new();
    for (keyword, path) in routes {
        index.insert((*keyword).to_string(), Route::from_path((*path).to_string()));
    }
    index
}

fn group(name: &str, description: &str, routes: &[(&str, &str)]) -> RouteGroup {
    RouteGroup {
        name: name.to_string(),
        description: Some(description.to_string()),
        hidden: false,
        routes: generate_external_routes(routes),
    }
}

fn assert_same_routes(index: &RouteIndex, expected: &[(&str, &str)]) {
    assert_eq!(index.len(), expected.len());
    for (keyword, path) in expected {
        let found = index
            .get(&(*keyword).to_string())
            .unwrap_or_else(|| panic!("keyword {keyword} is missing"));
        assert_eq!(found, &Route::from_path((*path).to_string()));
    }
}

#[test]
fn empty_groups_yield_empty_routes() {
    let index = cache_routes(&Vec::new());
    assert_eq!(index.len(), 0);
    assert!(index.is_empty());
}

#[test]
fn disjoint_groups_yield_summed_routes() {
    let group1 = group("x", "y", &[("a", "b"), ("c", "d")]);
    let group2 = group("5", "6", &[("1", "2"), ("3", "4")]);
    assert_same_routes(
        &cache_routes(&vec![group1, group2]),
        &[("a", "b"), ("c", "d"), ("1", "2"), ("3", "4")],
    );
}

#[test]
fn overlapping_groups_use_latter_routes() {
    let group1 = group("x", "y", &[("a", "b"), ("c", "d")]);
    let group2 = group("5", "6", &[("a", "1"), ("c", "2")]);
    assert_same_routes(&cache_routes(&vec![group1, group2]), &[("a", "1"), ("c", "2")]);

    let group1 = group("x", "y", &[("a", "b"), ("c", "d")]);
    let group3 = group("5", "6", &[("a", "1"), ("b", "2")]);
    assert_same_routes(
        &cache_routes(&vec![group1, group3]),
        &[("a", "1"), ("b", "2"), ("c", "d")],
    );
}

#[test]
fn index_insert_replaces_and_lookup_misses_are_none() {
    let mut index = RouteIndex::new();
    index.insert("a".to_string(), Route::from_path("first".to_string()));
    index.insert("a".to_string(), Route::from_path("second".to_string()));
    assert_eq!(index.len(), 1);
    assert_eq!(
        index.get(&"a".to_string()),
        Some(&Route::from_path("second".to_string()))
    );
    assert_eq!(index.get(&"b".to_string()), None);
}
