use lungyam::config::{AdminConfig, Config, RouteConfig, RoutePolicies, ServerConfig, UpstreamConfig};
use lungyam::config_diff::ConfigDiff;
use lungyam::ordered::OrderedMap;
use lungyam::routing::{find_matching_route, first_matching_index, route_matches, sort_routes};

fn route(name: &str, host: Option<&str>, path: &str, methods: &[&str], priority: i32) -> RouteConfig {
    RouteConfig {
        name: name.to_owned(),
        host: host.map(ToOwned::to_owned),
        path: path.to_owned(),
        methods: methods.iter().map(|method| (*method).to_owned()).collect(),
        upstream: "api".to_owned(),
        priority,
        policies: RoutePolicies::default(),
    }
}

fn diff_config() -> Config {
    let mut upstreams = OrderedMap::new();
    upstreams.insert(
        "api".to_owned(),
        UpstreamConfig {
            endpoints: vec!["127.0.0.1:3000".to_owned()],
            connect_timeout_ms: None,
            read_timeout_ms: None,
            write_timeout_ms: None,
            health_check_interval_seconds: 5,
        },
    );

    Config {
        server: ServerConfig {
            listen: "127.0.0.1:8080".to_owned(),
        },
        admin: AdminConfig::default(),
        upstreams,
        routes: vec![RouteConfig {
            name: "api".to_owned(),
            host: None,
            path: "/api".to_owned(),
            methods: vec!["GET".to_owned()],
            upstream: "api".to_owned(),
            priority: 0,
            policies: RoutePolicies::default(),
        }],
    }
}

#[test]
fn matching_respects_host_port_path_boundary_and_method() {
    let route = route("api", Some("api.example.com"), "/api", &["POST"], 0);

    assert!(route_matches(&route, Some("api.example.com:8080"), "/api/users", "post"));
    assert!(!route_matches(&route, Some("api.example.com"), "/apiv2", "POST"));
    assert!(!route_matches(&route, Some("api.example.com"), "/api", "GET"));
}

#[test]
fn first_match_uses_priority_then_path_specificity() {
    let routes = vec![
        route("fallback", None, "/", &[], 100),
        route("specific", None, "/api", &[], 100),
        route("lower", None, "/api/users", &[], 50),
    ];

    let matched = find_matching_route(&routes, None, "/api/users", "GET").expect("a route should match");
    assert_eq!(matched.name, "specific");
}

#[test]
fn sorting_preserves_configuration_order_for_equal_rank() {
    let mut routes = vec![route("first", None, "/one", &[], 10), route("second", None, "/two", &[], 10)];

    sort_routes(&mut routes);
    assert_eq!(routes[0].name, "first");
    assert_eq!(routes[1].name, "second");
}

#[test]
fn host_matching_ignores_ascii_case_but_prefix_with_port_does_not() {
    let route = route("api", Some("Api.Example.com"), "/", &[], 0);
    assert!(route_matches(&route, Some("api.example.COM"), "/anything", "GET"));
    assert!(route_matches(&route, Some("Api.Example.com:443"), "/", "GET"));
    assert!(!route_matches(&route, Some("api.example.com:443"), "/", "GET"));
    assert!(!route_matches(&route, None, "/", "GET"));
    assert!(!route_matches(&route, Some("Api.Example.com.evil"), "/", "GET"));
}

#[test]
fn sorting_ranks_by_priority_then_path_bytes() {
    let mut routes = vec![
        route("short", None, "/a", &[], 1),
        route("top", None, "/", &[], 9),
        route("long", None, "/abc", &[], 1),
        route("tie", None, "/xyz", &[], 1),
    ];
    sort_routes(&mut routes);
    let names: Vec<&str> = routes.iter().map(|route| route.name.as_str()).collect();
    assert_eq!(names, vec!["top", "long", "tie", "short"]);
    assert_eq!(first_matching_index(&routes, None, "/xyz/1", "GET"), Some(0));
    assert_eq!(first_matching_index(&routes[1..].to_vec(), None, "/xyz/1", "GET"), Some(1));
}

#[test]
fn no_route_matches_when_method_is_not_allowed() {
    let routes = vec![route("only-post", None, "/", &["POST"], 0)];
    assert!(find_matching_route(&routes, None, "/", "DELETE").is_none());
    assert_eq!(first_matching_index(&routes, None, "/", "DELETE"), None);
}

#[test]
fn route_only_diff_does_not_require_restart() {
    let current = diff_config();
    let mut candidate = current.clone();
    candidate.routes[0].priority = 50;
    candidate.routes.push(RouteConfig {
        name: "extra".to_owned(),
        path: "/extra".to_owned(),
        upstream: "api".to_owned(),
        host: None,
        methods: vec!["GET".to_owned()],
        priority: 0,
        policies: RoutePolicies::default(),
    });

    let diff = ConfigDiff::between(&current, &candidate);
    assert_eq!(diff.routes_changed, vec!["api"]);
    assert_eq!(diff.routes_added, vec!["extra"]);
    assert!(!diff.is_empty());
    assert!(!diff.restart_required());
}

#[test]
fn upstream_change_requires_restart() {
    let current = diff_config();
    let mut candidate = current.clone();
    let mut api = candidate.upstreams.get(&"api".to_owned()).expect("api upstream").clone();
    api.read_timeout_ms = Some(5000);
    candidate.upstreams.insert("api".to_owned(), api);

    let diff = ConfigDiff::between(&current, &candidate);
    assert_eq!(diff.upstreams_changed, vec!["api"]);
    assert!(diff.restart_required());
}

#[test]
fn diff_with_itself_is_empty_and_reversal_swaps_added_and_removed() {
    let current = diff_config();
    let same = ConfigDiff::between(&current, &current);
    assert!(same.is_empty());
    assert!(!same.restart_required());

    let mut candidate = current.clone();
    candidate.routes.clear();
    candidate.upstreams.insert(
        "canary".to_owned(),
        UpstreamConfig {
            endpoints: vec!["127.0.0.1:4000".to_owned()],
            connect_timeout_ms: None,
            read_timeout_ms: None,
            write_timeout_ms: None,
            health_check_interval_seconds: 5,
        },
    );
    let forward = ConfigDiff::between(&current, &candidate);
    let backward = ConfigDiff::between(&candidate, &current);
    assert_eq!(forward.routes_removed, vec!["api"]);
    assert_eq!(forward.upstreams_added, vec!["canary"]);
    assert_eq!(backward.routes_added, forward.routes_removed);
    assert_eq!(backward.upstreams_removed, forward.upstreams_added);
    assert!(forward.restart_required());
}

#[test]
fn reversal_reports_the_same_changed_names() {
    let current = diff_config();
    let mut candidate = current.clone();
    let mut api = candidate.upstreams.get(&"api".to_owned()).expect("api upstream").clone();
    api.connect_timeout_ms = Some(250);
    candidate.upstreams.insert("api".to_owned(), api);
    candidate.routes[0].priority = 7;

    let forward = ConfigDiff::between(&current, &candidate);
    let backward = ConfigDiff::between(&candidate, &current);
    assert_eq!(forward.upstreams_changed, vec!["api"]);
    assert_eq!(forward.routes_changed, vec!["api"]);
    assert_eq!(backward.upstreams_changed, forward.upstreams_changed);
    assert_eq!(backward.routes_changed, forward.routes_changed);
    assert_eq!(backward.server_changed, forward.server_changed);
    assert_eq!(backward.admin_changed, forward.admin_changed);
}

#[test]
fn reordering_routes_is_no_change() {
    let mut current = diff_config();
    current.routes.push(route("extra", None, "/extra", &[], 1));
    let mut candidate = current.clone();
    candidate.routes.reverse();

    let diff = ConfigDiff::between(&current, &candidate);
    assert!(diff.is_empty());
    assert!(!diff.restart_required());
}

#[test]
fn listener_change_requires_restart_and_is_not_empty() {
    let current = diff_config();
    let mut candidate = current.clone();
    candidate.server.listen = "0.0.0.0:9999".to_owned();

    let diff = ConfigDiff::between(&current, &candidate);
    assert!(diff.server_changed);
    assert!(diff.restart_required());
    assert!(!diff.is_empty());
}
