use bunbun::config::Route;
use bunbun::index::RouteIndex;
use bunbun::routes::check_route;
use bunbun::routes::resolve_hop;
use bunbun::routes::split_query;
use bunbun::routes::RouteResolution;

fn generate_route_result(keyword: &Route, args: &str) -> RouteResolution {
    RouteResolution::Resolved {
        route: keyword.clone(),
        args: String::from(args),
    }
}

fn single_route_index(keyword: &str, path: &str) -> RouteIndex {
    let mut map = RouteIndex::new();
    map.insert(keyword.to_string(), Route::from_path(path.to_string()));
    map
}

#[test]
fn empty_routes_no_default_yields_failed_hop() {
    assert_eq!(
        resolve_hop("hello world", &RouteIndex::new(), &None),
        RouteResolution::Unresolved
    );
}

#[test]
fn empty_routes_some_default_yields_failed_hop() {
    assert_eq!(
        resolve_hop(
            "hello world",
            &RouteIndex::new(),
            &Some(String::from("google"))
        ),
        RouteResolution::Unresolved
    );
}

#[test]
fn only_default_routes_some_default_yields_default_hop() {
    let map = single_route_index("google", "https://example.com");
    assert_eq!(
        resolve_hop("hello world", &map, &Some(String::from("google"))),
        generate_route_result(&Route::from_path("https://example.com".to_string()), "hello world"),
    );
}

#[test]
fn non_default_routes_some_default_yields_non_default_hop() {
    let map = single_route_index("google", "https://example.com");
    assert_eq!(
        resolve_hop("google hello world", &map, &Some(String::from("a"))),
        generate_route_result(&Route::from_path("https://example.com".to_string()), "hello world"),
    );
}

#[test]
fn non_default_routes_no_default_yields_non_default_hop() {
    let map = single_route_index("google", "https://example.com");
    assert_eq!(
        resolve_hop("google hello world", &map, &None),
        generate_route_result(&Route::from_path("https://example.com".to_string()), "hello world"),
    );
}

#[test]
fn keyword_mismatch_no_default_yields_failed_hop() {
    let map = single_route_index("google", "https://example.com");
    assert_eq!(
        resolve_hop("hello world", &map, &None),
        RouteResolution::Unresolved
    );
}

#[test]
fn matched_keyword_failing_bounds_falls_back_with_full_query() {
    // The route under "go" demands at least three arguments, so "go now"
    // fails the direct match; the default route then sees the full token
    // list, keyword included.
    let mut map = RouteIndex::new();
    let mut strict = Route::from_path("https://example.com".to_string());
    strict.min_args = Some(3);
    map.insert("go".to_string(), strict);
    map.insert(
        "fallback".to_string(),
        Route::from_path("https://fallback.example".to_string()),
    );
    assert_eq!(
        resolve_hop("go now", &map, &Some(String::from("fallback"))),
        generate_route_result(&Route::from_path("https://fallback.example".to_string()), "go now"),
    );
}

#[test]
fn default_route_failing_bounds_yields_failed_hop() {
    let mut map = RouteIndex::new();
    let mut strict = Route::from_path("https://example.com".to_string());
    strict.max_args = Some(1);
    map.insert("fallback".to_string(), strict);
    assert_eq!(
        resolve_hop("one two three", &map, &Some(String::from("fallback"))),
        RouteResolution::Unresolved
    );
}

fn create_route(min_args: Option<usize>, max_args: Option<usize>) -> Route {
    let mut route = Route::from_path(String::new());
    route.min_args = min_args;
    route.max_args = max_args;
    route
}

#[test]
fn no_min_arg_no_max_arg_counts() {
    assert!(check_route(&create_route(None, None), 0));
    assert!(check_route(&create_route(None, None), usize::MAX));
}

#[test]
fn min_arg_no_max_arg_counts() {
    assert!(!check_route(&create_route(Some(3), None), 0));
    assert!(!check_route(&create_route(Some(3), None), 2));
    assert!(check_route(&create_route(Some(3), None), 3));
    assert!(check_route(&create_route(Some(3), None), 4));
    assert!(check_route(&create_route(Some(3), None), usize::MAX));
}

#[test]
fn no_min_arg_max_arg_counts() {
    assert!(check_route(&create_route(None, Some(3)), 0));
    assert!(check_route(&create_route(None, Some(3)), 2));
    assert!(check_route(&create_route(None, Some(3)), 3));
    assert!(!check_route(&create_route(None, Some(3)), 4));
    assert!(!check_route(&create_route(None, Some(3)), usize::MAX));
}

#[test]
fn min_arg_max_arg_counts() {
    assert!(!check_route(&create_route(Some(2), Some(3)), 1));
    assert!(check_route(&create_route(Some(2), Some(3)), 2));
    assert!(check_route(&create_route(Some(2), Some(3)), 3));
    assert!(!check_route(&create_route(Some(2), Some(3)), 4));
}

#[test]
fn min_arg_max_arg_bounds_are_inclusive_and_exact() {
    let route = create_route(Some(2), Some(3));
    assert!(!check_route(&route, 0));
    assert!(!check_route(&route, 1));
    assert!(check_route(&route, 2));
    assert!(check_route(&route, 3));
    assert!(!check_route(&route, 4));
    assert!(!check_route(&route, usize::MAX));
}

#[test]
fn repeated_whitespace_is_normalized_to_single_spaces() {
    let map = single_route_index("google", "https://example.com");
    assert_eq!(
        resolve_hop("google   hello \t world", &map, &None),
        generate_route_result(&Route::from_path("https://example.com".to_string()), "hello world"),
    );
}

#[test]
fn multibyte_characters_survive_tokenization() {
    let map = single_route_index("google", "https://example.com");
    assert_eq!(
        resolve_hop("google caf\u{e9} \u{3053}\u{3093}", &map, &None),
        generate_route_result(
            &Route::from_path("https://example.com".to_string()),
            "caf\u{e9} \u{3053}\u{3093}"
        ),
    );
}

#[test]
fn split_query_discards_empty_runs() {
    let tokens = split_query("  google\thello \r\n world  ");
    assert_eq!(tokens, vec!["google", "hello", "world"]);
    assert_eq!(split_query(""), Vec::<String>::new());
    assert_eq!(split_query(" \t "), Vec::<String>::new());
}
