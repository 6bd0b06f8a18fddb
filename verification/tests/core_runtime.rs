use lungyam::config::{AdminConfig, Config, RouteConfig, RoutePolicies, ServerConfig, UpstreamConfig};
use lungyam::ordered::OrderedMap;
use lungyam::runtime::{RuntimeConfigApplyError, RuntimeStatus};
use lungyam::PROJECT_NAME;

fn test_config() -> Config {
    let mut upstreams = OrderedMap::new();
    upstreams.insert(
        "api".to_owned(),
        UpstreamConfig {
            endpoints: vec!["127.0.0.1:3000".to_owned(), "127.0.0.1:3001".to_owned()],
            connect_timeout_ms: None,
            read_timeout_ms: None,
            write_timeout_ms: None,
            health_check_interval_seconds: 5,
        },
    );

    Config {
        server: ServerConfig {
            listen: "0.0.0.0:8080".to_owned(),
        },
        admin: AdminConfig {
            enabled: true,
            listen: "127.0.0.1:9090".to_owned(),
            read_only: true,
        },
        upstreams,
        routes: vec![RouteConfig {
            name: "api".to_owned(),
            host: None,
            path: "/".to_owned(),
            methods: Vec::new(),
            upstream: "api".to_owned(),
            priority: 0,
            policies: RoutePolicies::default(),
        }],
    }
}

#[test]
fn project_name_is_stable() {
    assert_eq!(PROJECT_NAME, "Lungyam");
}

#[test]
fn captures_config_and_tracks_endpoint_health() {
    let config = test_config();
    let mut status = RuntimeStatus::from_config(&config);

    let initial = status.snapshot();
    assert!(initial.active_config.admin_read_only);
    assert_eq!(initial.active_config.route_count, 1);
    assert_eq!(initial.active_config.upstream_count, 1);
    assert_eq!(initial.active_config.endpoint_count, 2);
    assert!(initial.endpoint_health.iter().all(|endpoint| endpoint.healthy));

    let active_config = status.config();
    assert_eq!(active_config.routes.len(), 1);
    assert_eq!(active_config.upstreams.len(), 1);

    let routes = status.routes();
    assert_eq!(routes.len(), 1);
    assert_eq!(routes[0].name, "api");
    assert_eq!(routes[0].upstream, "api");

    status.set_endpoint_health("api", "127.0.0.1:3001", false);
    let updated = status.snapshot();
    let failed = updated
        .endpoint_health
        .iter()
        .find(|endpoint| endpoint.endpoint == "127.0.0.1:3001")
        .expect("configured endpoint should exist");
    assert!(!failed.healthy);
}

#[test]
fn config_snapshot_is_immutable_and_independent_from_source_config() {
    let mut source = test_config();
    let status = RuntimeStatus::from_config(&source);
    let first = status.config_snapshot();
    let second = first.clone();

    source.routes.clear();
    source.upstreams.clear();

    assert_eq!(first.config().routes.len(), 1);
    assert_eq!(first.config().upstreams.len(), 1);
    assert!(std::ptr::eq(first.config(), second.config()));
    assert_eq!(second.routes()[0].name, "api");
}

#[test]
fn config_snapshot_precomputes_proxy_route_order() {
    let mut config = test_config();
    let mut lower = config.routes[0].clone();
    lower.name = "lower".to_owned();
    lower.priority = 10;
    lower.path = "/api/long".to_owned();

    let mut higher = lower.clone();
    higher.name = "higher".to_owned();
    higher.priority = 20;
    higher.path = "/".to_owned();

    let mut specific = higher.clone();
    specific.name = "specific".to_owned();
    specific.path = "/api".to_owned();

    config.routes = vec![lower, higher, specific];
    let status = RuntimeStatus::from_config(&config);
    let snapshot = status.config_snapshot();

    assert_eq!(snapshot.routes()[0].name, "specific");
    assert_eq!(snapshot.routes()[1].name, "higher");
    assert_eq!(snapshot.routes()[2].name, "lower");
    assert_eq!(snapshot.config().routes[0].name, "lower");
}

#[test]
fn route_config_apply_swaps_future_snapshots_and_preserves_pinned_readers() {
    let config = test_config();
    let mut status = RuntimeStatus::from_config(&config);
    let pinned = status.config_snapshot();

    let mut candidate = config.clone();
    let mut second = candidate.routes[0].clone();
    second.name = "api-v2".to_owned();
    second.path = "/v2".to_owned();
    second.priority = 100;
    candidate.routes.push(second);

    status
        .apply_route_config(&candidate)
        .expect("route-only config should hot apply");

    assert_eq!(pinned.routes().len(), 1);
    assert_eq!(status.config_snapshot().routes().len(), 2);
    assert_eq!(status.config_snapshot().routes()[0].name, "api-v2");
    assert_eq!(status.snapshot().active_config.route_count, 2);
}

#[test]
fn route_config_apply_rejects_structural_changes_without_replacing_active_snapshot() {
    let config = test_config();
    let mut status = RuntimeStatus::from_config(&config);
    let mut candidate = config.clone();
    let mut api = candidate
        .upstreams
        .get(&"api".to_owned())
        .expect("api upstream")
        .clone();
    api.endpoints.push("127.0.0.1:3002".to_owned());
    candidate.upstreams.insert("api".to_owned(), api);

    assert_eq!(
        status.apply_route_config(&candidate),
        Err(RuntimeConfigApplyError::StructuralChange)
    );
    assert_eq!(status.config(), config);
}

#[test]
fn route_config_apply_rejects_invalid_candidate_with_validation_message() {
    let config = test_config();
    let mut status = RuntimeStatus::from_config(&config);
    let mut candidate = config.clone();
    candidate.routes[0].upstream = "missing".to_owned();

    let error = status
        .apply_route_config(&candidate)
        .expect_err("unknown upstream must be refused");
    assert_eq!(
        error,
        RuntimeConfigApplyError::InvalidConfig(
            "invalid configuration: route 'api' references unknown upstream 'missing'".to_owned()
        )
    );
    assert_eq!(
        error.describe(),
        "candidate runtime config is invalid: invalid configuration: route 'api' references unknown upstream 'missing'"
    );
    assert_eq!(status.config(), config);
}

#[test]
fn endpoint_health_is_reported_in_upstream_then_endpoint_order() {
    let mut config = test_config();
    config.upstreams.insert(
        "alpha".to_owned(),
        UpstreamConfig {
            endpoints: vec!["10.0.0.2:80".to_owned(), "10.0.0.1:80".to_owned()],
            connect_timeout_ms: None,
            read_timeout_ms: None,
            write_timeout_ms: None,
            health_check_interval_seconds: 5,
        },
    );
    let mut status = RuntimeStatus::from_config(&config);
    status.set_endpoint_health("alpha", "10.0.0.2:80", false);
    let report = status.snapshot_at(42);
    assert_eq!(report.uptime_seconds, 42);
    assert_eq!(report.active_config.endpoint_count, 4);
    let order: Vec<(String, String, bool)> = report
        .endpoint_health
        .iter()
        .map(|entry| (entry.upstream.clone(), entry.endpoint.clone(), entry.healthy))
        .collect();
    assert_eq!(
        order,
        vec![
            ("alpha".to_owned(), "10.0.0.1:80".to_owned(), true),
            ("alpha".to_owned(), "10.0.0.2:80".to_owned(), false),
            ("api".to_owned(), "127.0.0.1:3000".to_owned(), true),
            ("api".to_owned(), "127.0.0.1:3001".to_owned(), true),
        ]
    );
}

#[test]
fn setting_health_keeps_exactly_one_entry_per_endpoint() {
    let mut status = RuntimeStatus::from_config(&test_config());
    status.set_endpoint_health("api", "127.0.0.1:3000", false);
    status.set_endpoint_health("api", "127.0.0.1:3000", true);
    status.set_endpoint_health("api", "127.0.0.1:3000", false);
    status.set_endpoint_health("extra", "10.0.0.9:80", true);
    let report = status.snapshot_at(0);
    let entries: Vec<(String, String, bool)> = report
        .endpoint_health
        .iter()
        .map(|entry| (entry.upstream.clone(), entry.endpoint.clone(), entry.healthy))
        .collect();
    assert_eq!(
        entries,
        vec![
            ("api".to_owned(), "127.0.0.1:3000".to_owned(), false),
            ("api".to_owned(), "127.0.0.1:3001".to_owned(), true),
            ("extra".to_owned(), "10.0.0.9:80".to_owned(), true),
        ]
    );
}
