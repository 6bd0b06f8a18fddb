use lungyam::config::{
    AdminConfig, Config, RateLimitConfig, RouteConfig, RoutePolicies, ServerConfig,
    UpstreamConfig,
};
use lungyam::ordered::OrderedMap;
use lungyam::config::HeaderTransform;
use lungyam::proxy::{
    header_operations, response_operations, upstream_request_operations, HeaderOp,
};
use lungyam::proxy::{
    after_rate_limit, can_retry_connect, request_id, route_filter, runtime_banner, window_step,
    FilterDecision, RateWindow, WindowStep,
};

fn route(name: &str, path: &str, priority: i32, max_body: Option<usize>) -> RouteConfig {
    let mut policies = RoutePolicies::default();
    policies.max_request_body_bytes = max_body;
    RouteConfig {
        name: name.to_owned(),
        host: None,
        path: path.to_owned(),
        methods: Vec::new(),
        upstream: "api".to_owned(),
        priority,
        policies,
    }
}

#[test]
fn runtime_banner_names_the_project() {
    assert_eq!(runtime_banner(), "Lungyam proxy");
}

#[test]
fn request_ids_carry_the_sequence_number() {
    assert_eq!(request_id(1), "ly-1");
    assert_eq!(request_id(1234), "ly-1234");
}

#[test]
fn health_probe_is_answered_before_routing() {
    let routes = vec![route("all", "/", 0, None)];
    assert_eq!(
        route_filter(&routes, None, "/health", "GET", None),
        FilterDecision::Respond {
            status: 200,
            body: "ok\n".to_owned()
        }
    );
}

#[test]
fn unmatched_requests_get_404() {
    let routes = vec![route("api", "/api", 0, None)];
    assert_eq!(
        route_filter(&routes, None, "/other", "GET", None),
        FilterDecision::Respond {
            status: 404,
            body: "route not found\n".to_owned()
        }
    );
}

#[test]
fn declared_bodies_over_the_limit_get_413() {
    let routes = vec![route("upload", "/upload", 0, Some(1024))];
    assert_eq!(
        route_filter(&routes, None, "/upload", "POST", Some("2048")),
        FilterDecision::Respond {
            status: 413,
            body: "request body too large\n".to_owned()
        }
    );
    assert_eq!(
        route_filter(&routes, None, "/upload", "POST", Some("1024")),
        FilterDecision::Forward { route_index: 0 }
    );
    assert_eq!(
        route_filter(&routes, None, "/upload", "POST", Some("lots")),
        FilterDecision::Forward { route_index: 0 }
    );
    assert_eq!(
        route_filter(&routes, None, "/upload", "POST", None),
        FilterDecision::Forward { route_index: 0 }
    );
}

#[test]
fn the_first_route_in_evaluation_order_is_taken() {
    let routes = vec![route("specific", "/api/users", 10, None), route("api", "/api", 0, None)];
    assert_eq!(
        route_filter(&routes, None, "/api/users/7", "GET", None),
        FilterDecision::Forward { route_index: 0 }
    );
    assert_eq!(
        route_filter(&routes, None, "/api/orders", "GET", None),
        FilterDecision::Forward { route_index: 1 }
    );
}

#[test]
fn rate_limited_requests_get_429() {
    assert_eq!(after_rate_limit(3, true), FilterDecision::Forward { route_index: 3 });
    assert_eq!(
        after_rate_limit(3, false),
        FilterDecision::Respond {
            status: 429,
            body: "rate limit exceeded\n".to_owned()
        }
    );
}

#[test]
fn window_counts_until_its_limit_and_restarts_after_its_length() {
    let limit = RateLimitConfig {
        requests: 2,
        window_seconds: 60,
    };
    assert_eq!(
        window_step(0, 0, &limit),
        WindowStep {
            allowed: true,
            restart: false,
            count: 1
        }
    );
    assert_eq!(
        window_step(1, 59_999_999_999, &limit),
        WindowStep {
            allowed: true,
            restart: false,
            count: 2
        }
    );
    assert_eq!(
        window_step(2, 59_999_999_999, &limit),
        WindowStep {
            allowed: false,
            restart: false,
            count: 2
        }
    );
    assert_eq!(
        window_step(2, 60_000_000_000, &limit),
        WindowStep {
            allowed: true,
            restart: true,
            count: 1
        }
    );
}

#[test]
fn a_fresh_window_admits_up_to_the_limit() {
    let limit = RateLimitConfig {
        requests: 3,
        window_seconds: 3600,
    };
    let now = 5_000_000_000u128;
    let mut window = RateWindow::new(now);
    assert!(window.allow(&limit, now));
    assert!(window.allow(&limit, now));
    assert!(window.allow(&limit, now));
    assert!(!window.allow(&limit, now));
    assert_eq!(window.count, 3);
}

#[test]
fn connections_are_retried_while_endpoints_remain() {
    let mut upstreams = OrderedMap::new();
    upstreams.insert(
        "api".to_owned(),
        UpstreamConfig {
            endpoints: vec!["127.0.0.1:3000".to_owned(), "127.0.0.1:3001".to_owned()],
            connect_timeout_ms: None,
            read_timeout_ms: None,
            write_timeout_ms: None,
            health_check_interval_seconds: 5,
        },
    );
    let config = Config {
        server: ServerConfig {
            listen: "127.0.0.1:8080".to_owned(),
        },
        admin: AdminConfig {
            enabled: false,
            listen: "127.0.0.1:9090".to_owned(),
            read_only: false,
        },
        upstreams,
        routes: vec![route("api", "/", 0, None)],
    };
    let r = &config.routes[0];
    assert!(can_retry_connect(&config, r, 1));
    assert!(!can_retry_connect(&config, r, 2));
    let mut orphan = r.clone();
    orphan.upstream = "missing".to_owned();
    assert!(!can_retry_connect(&config, &orphan, 0));
}

#[test]
fn header_changes_remove_first_then_add_in_name_order() {
    let mut transform = HeaderTransform::default();
    transform.add.insert("x-b".to_owned(), "2".to_owned());
    transform.add.insert("x-a".to_owned(), "1".to_owned());
    transform.remove = vec!["x-drop".to_owned()];
    assert_eq!(
        header_operations(&transform),
        vec![
            HeaderOp::Remove("x-drop".to_owned()),
            HeaderOp::Insert("x-a".to_owned(), "1".to_owned()),
            HeaderOp::Insert("x-b".to_owned(), "2".to_owned()),
        ]
    );

    let mut r = route("api", "/", 0, None);
    r.policies.request_headers = transform;
    let request_ops = upstream_request_operations(&r, "ly-7");
    assert_eq!(request_ops.len(), 5);
    assert_eq!(request_ops[3], HeaderOp::Insert("x-request-id".to_owned(), "ly-7".to_owned()));
    assert_eq!(request_ops[4], HeaderOp::Insert("x-lungyam-route".to_owned(), "api".to_owned()));
    assert_eq!(
        response_operations(&r, "ly-7"),
        vec![
            HeaderOp::Insert("x-request-id".to_owned(), "ly-7".to_owned()),
            HeaderOp::Remove("alt-svc".to_owned()),
        ]
    );
}

#[test]
fn a_window_restarts_once_its_length_has_passed_since_it_began() {
    let limit = RateLimitConfig {
        requests: 1,
        window_seconds: 10,
    };
    let mut window = RateWindow::new(1_000);
    assert!(window.allow(&limit, 1_000));
    assert!(!window.allow(&limit, 1_000 + 9_999_999_999));
    assert_eq!(window.started, 1_000);
    assert!(window.allow(&limit, 1_000 + 10_000_000_000));
    assert_eq!(window.started, 10_000_001_000);
    assert_eq!(window.count, 1);
    // A reading earlier than the window's start counts as no time passed.
    assert!(!window.allow(&limit, 5));
    assert_eq!(window.started, 10_000_001_000);
}
