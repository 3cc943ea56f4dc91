use bunbun::config::Config;
use bunbun::config::Route;
use bunbun::config::RouteGroup;
use bunbun::error::u64_to_string;
use bunbun::error::BunBunError;
use bunbun::index::RouteIndex;
use bunbun::install_config;
use bunbun::resolve_current;
use bunbun::routes::RouteResolution;
use bunbun::state_from_config;
use bunbun::store::SnapshotStore;

fn config_with(public_address: &str, keyword: &str, path: &str) -> Config {
    let mut routes = RouteIndex::new();
    routes.insert(keyword.to_string(), Route::from_path(path.to_string()));
    Config {
        bind_address: "127.0.0.1:8080".to_string(),
        public_address: public_address.to_string(),
        default_route: None,
        groups: vec![RouteGroup {
            name: "default".to_string(),
            description: None,
            hidden: false,
            routes,
        }],
    }
}

#[test]
fn state_from_config_flattens_groups() {
    let state = state_from_config(config_with("example.com", "g", "https://example.com"));
    assert_eq!(state.public_address, "example.com");
    assert_eq!(state.default_route, None);
    assert_eq!(state.groups.len(), 1);
    assert_eq!(
        state.routes.get(&"g".to_string()),
        Some(&Route::from_path("https://example.com".to_string()))
    );
}

#[test]
fn current_returns_latest_published_snapshot() {
    let s1 = state_from_config(config_with("one.example", "a", "https://one.example"));
    let s2 = state_from_config(config_with("two.example", "b", "https://two.example"));

    let store = SnapshotStore::new(s1);
    let before = store.current();
    assert_eq!(before.public_address, "one.example");

    store.publish(s2);
    let after = store.current();
    assert_eq!(after.public_address, "two.example");
    assert!(after.routes.get(&"b".to_string()).is_some());
    assert!(after.routes.get(&"a".to_string()).is_none());

    // A reader that obtained its snapshot before the publish keeps a fully
    // consistent view of the old value.
    assert_eq!(before.public_address, "one.example");
    assert!(before.routes.get(&"a".to_string()).is_some());
    assert!(before.routes.get(&"b".to_string()).is_none());
}

#[test]
fn reload_installs_new_config_and_resolution_follows() {
    let store = SnapshotStore::new(state_from_config(config_with(
        "one.example",
        "a",
        "https://one.example",
    )));
    match resolve_current(&store, "a hello").1 {
        RouteResolution::Resolved { route, args } => {
            assert_eq!(route.path, "https://one.example");
            assert_eq!(args, "hello");
        }
        RouteResolution::Unresolved => panic!("expected a match before the reload"),
    }

    install_config(&store, config_with("two.example", "b", "https://two.example"));
    assert_eq!(store.current().public_address, "two.example");
    assert!(matches!(
        resolve_current(&store, "a hello").1,
        RouteResolution::Unresolved
    ));
    match resolve_current(&store, "b bye").1 {
        RouteResolution::Resolved { route, args } => {
            assert_eq!(route.path, "https://two.example");
            assert_eq!(args, "bye");
        }
        RouteResolution::Unresolved => panic!("expected a match after the reload"),
    }
}

#[test]
fn decimal_rendering_is_exact() {
    assert_eq!(u64_to_string(0), "0");
    assert_eq!(u64_to_string(7), "7");
    assert_eq!(u64_to_string(100_000_001), "100000001");
    assert_eq!(u64_to_string(u64::MAX), "18446744073709551615");
}

#[test]
fn error_messages_render_their_payloads() {
    assert_eq!(
        BunBunError::NoValidConfigPath.message(),
        "No valid config path was found!"
    );
    assert_eq!(
        BunBunError::InvalidConfigPath("/a/b".to_string(), "denied".to_string()).message(),
        "Failed to access /a/b: denied"
    );
    assert_eq!(
        BunBunError::ConfigTooLarge(100_000_001).message(),
        "The config file was too large (100000001 bytes)! Pass in --large-config to bypass this check."
    );
    assert_eq!(
        BunBunError::ZeroByteConfig.message(),
        "The config provided reported a size of 0 bytes. Please check your config path!"
    );
    assert_eq!(BunBunError::Io("broken pipe".to_string()).message(), "broken pipe");
    assert_eq!(BunBunError::Parse("bad yaml".to_string()).message(), "bad yaml");
    assert_eq!(BunBunError::Watch("no watcher".to_string()).message(), "no watcher");
    assert_eq!(
        BunBunError::CustomProgram("exit 3".to_string()).message(),
        "exit 3"
    );
    assert_eq!(BunBunError::JsonParse("bad json".to_string()).message(), "bad json");
}
