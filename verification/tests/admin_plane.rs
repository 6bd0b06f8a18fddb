use lungyam::admin::route_edits;
use lungyam::admin::route_forms::{candidate_route, route_validation, RouteForm};
use lungyam::admin::route_stage;
use lungyam::admin::security::{is_loopback_octets, writes_enabled, CsrfToken};
use lungyam::admin::simulator::{simulate, RouteMatchForm};
use lungyam::admin::upstream_stage::{
    candidate_config as upstream_candidate_config, parse_optional_duration,
    parse_required_duration, StageUpstreamCreateForm,
};
use lungyam::admin::views::{format_timeout, format_uptime, health_views};
use lungyam::config::{
    AdminConfig, Config, RouteConfig, RoutePolicies, ServerConfig, UpstreamConfig,
};
use lungyam::ordered::OrderedMap;
use lungyam::runtime::RuntimeStatus;

fn upstream(endpoints: &[&str]) -> UpstreamConfig {
    UpstreamConfig {
        endpoints: endpoints.iter().map(|e| (*e).to_owned()).collect(),
        connect_timeout_ms: None,
        read_timeout_ms: None,
        write_timeout_ms: None,
        health_check_interval_seconds: 5,
    }
}

fn edit_config() -> Config {
    let mut upstreams = OrderedMap::new();
    upstreams.insert("api".to_owned(), upstream(&["127.0.0.1:3000"]));
    Config {
        server: ServerConfig {
            listen: "127.0.0.1:8080".to_owned(),
        },
        admin: AdminConfig {
            enabled: true,
            listen: "127.0.0.1:9090".to_owned(),
            read_only: false,
        },
        upstreams,
        routes: vec![RouteConfig {
            name: "api".to_owned(),
            host: None,
            path: "/api".to_owned(),
            methods: vec!["GET".to_owned()],
            upstream: "api".to_owned(),
            priority: 0,
            policies: RoutePolicies::default(),
        }],
    }
}

fn blank_form(name: &str, path: &str) -> RouteForm {
    RouteForm {
        csrf_token: String::new(),
        name: name.to_owned(),
        host: String::new(),
        path: path.to_owned(),
        methods: String::new(),
        upstream: "api".to_owned(),
        priority: "0".to_owned(),
        request_add_headers: String::new(),
        request_remove_headers: String::new(),
        response_add_headers: String::new(),
        response_remove_headers: String::new(),
        rate_limit_requests: String::new(),
        rate_limit_window_seconds: String::new(),
        max_request_body_bytes: String::new(),
    }
}

fn rename_form() -> RouteForm {
    RouteForm {
        csrf_token: String::new(),
        name: "renamed".to_owned(),
        host: String::new(),
        path: "/updated".to_owned(),
        methods: "POST".to_owned(),
        upstream: "api".to_owned(),
        priority: "5".to_owned(),
        request_add_headers: String::new(),
        request_remove_headers: String::new(),
        response_add_headers: String::new(),
        response_remove_headers: String::new(),
        rate_limit_requests: String::new(),
        rate_limit_window_seconds: String::new(),
        max_request_body_bytes: String::new(),
    }
}

fn with_second_route(mut config: Config) -> Config {
    let mut second = config.routes[0].clone();
    second.name = "second".to_owned();
    second.path = "/second".to_owned();
    config.routes.push(second);
    config
}

#[test]
fn update_preserves_original_route_order_and_validates_rename() {
    let config = with_second_route(edit_config());
    let updated = route_edits::candidate_updated_config(&config, "api", rename_form())
        .expect("valid update");

    assert_eq!(updated.routes[0].name, "renamed");
    assert_eq!(updated.routes[1].name, "second");
}

#[test]
fn route_edits_delete_requires_existing_route() {
    let config = edit_config();
    let deleted = route_edits::candidate_deleted_config(&config, "api").expect("delete route");
    assert!(deleted.routes.is_empty());
    assert!(route_edits::candidate_deleted_config(&config, "missing").is_err());
}

#[test]
fn update_preserves_original_route_order() {
    let config = with_second_route(edit_config());
    let updated = route_stage::candidate_updated_config(&config, "api", rename_form())
        .expect("valid update");

    assert_eq!(updated.routes[0].name, "renamed");
    assert_eq!(updated.routes[1].name, "second");
}

#[test]
fn route_stage_delete_requires_existing_route() {
    let config = edit_config();
    let deleted = route_stage::candidate_deleted_config(&config, "api").expect("delete route");
    assert!(deleted.routes.is_empty());
    assert!(route_stage::candidate_deleted_config(&config, "missing").is_err());
}

#[test]
fn update_keeps_route_fields_from_the_form() {
    let config = with_second_route(edit_config());
    let updated = route_edits::candidate_updated_config(&config, "api", rename_form())
        .expect("valid update");
    let route = &updated.routes[0];
    assert_eq!(route.path, "/updated");
    assert_eq!(route.methods, vec!["POST".to_owned()]);
    assert_eq!(route.priority, 5);
    assert_eq!(updated.routes[1].path, "/second");
}

#[test]
fn update_of_missing_route_names_it() {
    let config = edit_config();
    let error = route_edits::candidate_updated_config(&config, "missing", rename_form())
        .expect_err("missing route");
    assert_eq!(error, "route 'missing' was not found");
}

#[test]
fn update_rejects_a_name_taken_by_another_route() {
    let config = with_second_route(edit_config());
    let mut form = rename_form();
    form.name = "second".to_owned();
    let error = route_edits::candidate_updated_config(&config, "api", form).expect_err("duplicate");
    assert_eq!(error, "invalid configuration: duplicate route name 'second'");
}

#[test]
fn staged_delete_trims_the_name() {
    let config = edit_config();
    let deleted = route_stage::candidate_deleted_config(&config, "  api ").expect("delete route");
    assert!(deleted.routes.is_empty());
    let error = route_stage::candidate_deleted_config(&config, " gone ").expect_err("missing");
    assert_eq!(error, "route 'gone' was not found");
}

#[test]
fn validates_candidate_with_header_transforms_and_core_rules() {
    let view = route_validation(
        &edit_config(),
        RouteForm {
            csrf_token: String::new(),
            name: "new-route".to_owned(),
            host: "api.test".to_owned(),
            path: "/new".to_owned(),
            methods: "GET, POST".to_owned(),
            upstream: "api".to_owned(),
            priority: "100".to_owned(),
            request_add_headers: "x-added: from-admin\nx-trace: yes".to_owned(),
            request_remove_headers: "x-remove-me".to_owned(),
            response_add_headers: "x-response: enabled".to_owned(),
            response_remove_headers: "server, x-internal".to_owned(),
            rate_limit_requests: "10".to_owned(),
            rate_limit_window_seconds: "60".to_owned(),
            max_request_body_bytes: "1024".to_owned(),
        },
    );

    assert!(view.valid);
    assert!(view.route_name.contains("new-route"));
}

#[test]
fn surfaces_core_header_validation_errors() {
    let mut form = blank_form("bad-header", "/");
    form.request_add_headers = "bad header: value".to_owned();
    let view = route_validation(&edit_config(), form);

    assert!(!view.valid);
    assert!(view.message.contains("header add name"));
}

#[test]
fn rejects_malformed_header_line() {
    let mut form = blank_form("bad-header-line", "/");
    form.request_add_headers = "missing-separator".to_owned();
    let view = route_validation(&edit_config(), form);

    assert!(view.message.contains("must use"));
    assert!(view.message.contains("name: value"));
}

#[test]
fn rejects_incomplete_rate_limit_input() {
    let mut form = blank_form("bad-rate", "/");
    form.rate_limit_requests = "10".to_owned();
    let view = route_validation(&edit_config(), form);

    assert!(view.message.contains("must be provided together"));
}

#[test]
fn candidate_route_reads_every_field() {
    let route = candidate_route(RouteForm {
        csrf_token: String::new(),
        name: " new-route ".to_owned(),
        host: " api.test ".to_owned(),
        path: " /new ".to_owned(),
        methods: "GET, , POST".to_owned(),
        upstream: " api ".to_owned(),
        priority: " -7 ".to_owned(),
        request_add_headers: "x-b: 2\n\n x-a : 1 ".to_owned(),
        request_remove_headers: "x-one,\nx-two".to_owned(),
        response_add_headers: String::new(),
        response_remove_headers: String::new(),
        rate_limit_requests: "10".to_owned(),
        rate_limit_window_seconds: "60".to_owned(),
        max_request_body_bytes: "1024".to_owned(),
    })
    .expect("valid form");

    assert_eq!(route.name, "new-route");
    assert_eq!(route.host.as_deref(), Some("api.test"));
    assert_eq!(route.path, "/new");
    assert_eq!(route.methods, vec!["GET".to_owned(), "POST".to_owned()]);
    assert_eq!(route.upstream, "api");
    assert_eq!(route.priority, -7);
    let added = &route.policies.request_headers.add;
    assert_eq!(added.len(), 2);
    assert_eq!(added.key_at(0), "x-a");
    assert_eq!(added.value_at(0), "1");
    assert_eq!(added.key_at(1), "x-b");
    assert_eq!(
        route.policies.request_headers.remove,
        vec!["x-one".to_owned(), "x-two".to_owned()]
    );
    let limit = route.policies.rate_limit.expect("rate limit");
    assert_eq!((limit.requests, limit.window_seconds), (10, 60));
    assert_eq!(route.policies.max_request_body_bytes, Some(1024));
}

#[test]
fn candidate_route_reports_each_form_error() {
    let mut form = blank_form("r", "/");
    form.priority = "high".to_owned();
    assert_eq!(candidate_route(form).unwrap_err(), "priority must be a valid number");

    let mut form = blank_form("r", "/");
    form.request_add_headers = "\n: value".to_owned();
    assert_eq!(
        candidate_route(form).unwrap_err(),
        "request add header line 2 has an empty name"
    );

    let mut form = blank_form("r", "/");
    form.response_add_headers = "x-a: 1\nx-a: 2".to_owned();
    assert_eq!(
        candidate_route(form).unwrap_err(),
        "response add header 'x-a' is configured more than once"
    );

    let mut form = blank_form("r", "/");
    form.request_add_headers = "a: 1\nno separator".to_owned();
    assert_eq!(
        candidate_route(form).unwrap_err(),
        "request add header line 2 must use 'name: value'"
    );
}

fn upstream_config() -> Config {
    let mut upstreams = OrderedMap::new();
    upstreams.insert(
        "api".to_owned(),
        UpstreamConfig {
            endpoints: vec!["127.0.0.1:3000".to_owned()],
            connect_timeout_ms: Some(2000),
            read_timeout_ms: Some(10000),
            write_timeout_ms: Some(10000),
            health_check_interval_seconds: 5,
        },
    );
    Config {
        server: ServerConfig {
            listen: "127.0.0.1:8080".to_owned(),
        },
        admin: AdminConfig {
            enabled: true,
            listen: "127.0.0.1:9090".to_owned(),
            read_only: false,
        },
        upstreams,
        routes: Vec::new(),
    }
}

fn upstream_form(upstream_name: &str) -> StageUpstreamCreateForm {
    StageUpstreamCreateForm {
        csrf_token: String::new(),
        upstream_name: upstream_name.to_owned(),
        endpoints: "127.0.0.1:4000\n127.0.0.1:4001".to_owned(),
        connect_timeout: "2500".to_owned(),
        read_timeout: "10000".to_owned(),
        write_timeout: "15000".to_owned(),
        health_check_interval: "7".to_owned(),
    }
}

#[test]
fn candidate_create_rejects_duplicate_and_parses_values() {
    let config = upstream_config();
    let duplicate = upstream_form("api");
    assert!(upstream_candidate_config(&config, &duplicate).is_err());

    let candidate =
        upstream_candidate_config(&config, &upstream_form("canary")).expect("valid candidate");
    let canary = candidate
        .upstreams
        .get(&"canary".to_owned())
        .expect("canary upstream");
    assert_eq!(canary.endpoints.len(), 2);
    assert_eq!(canary.connect_timeout_ms, Some(2500));
    assert_eq!(canary.read_timeout_ms, Some(10000));
    assert_eq!(canary.write_timeout_ms, Some(15000));
    assert_eq!(canary.health_check_interval_seconds, 7);
}

#[test]
fn upstream_create_reports_each_problem() {
    let config = upstream_config();
    assert_eq!(
        upstream_candidate_config(&config, &upstream_form("  ")).unwrap_err(),
        "upstream name must not be empty"
    );
    assert_eq!(
        upstream_candidate_config(&config, &upstream_form(" api ")).unwrap_err(),
        "upstream 'api' already exists"
    );
    let mut form = upstream_form("canary");
    form.endpoints = " , \n ".to_owned();
    assert_eq!(
        upstream_candidate_config(&config, &form).unwrap_err(),
        "at least one upstream endpoint is required"
    );
    let mut form = upstream_form("canary");
    form.read_timeout = "0".to_owned();
    assert_eq!(
        upstream_candidate_config(&config, &form).unwrap_err(),
        "read timeout must be greater than zero"
    );
    let mut form = upstream_form("canary");
    form.health_check_interval = "soon".to_owned();
    assert_eq!(
        upstream_candidate_config(&config, &form).unwrap_err(),
        "health-check interval must be a valid number"
    );
    let mut form = upstream_form("canary");
    form.endpoints = "not-an-endpoint".to_owned();
    form.health_check_interval = "0s".to_owned();
    assert_eq!(
        upstream_candidate_config(&config, &form).unwrap_err(),
        "health-check interval must be greater than zero"
    );
}

#[test]
fn durations_accept_suffixes_and_defaults() {
    assert_eq!(parse_optional_duration("", "t", "ms"), Ok(None));
    assert_eq!(parse_optional_duration(" DeFault ", "t", "ms"), Ok(None));
    assert_eq!(parse_optional_duration("2500 ms", "t", "ms"), Ok(Some(2500)));
    assert_eq!(parse_optional_duration("2500ms", "t", "ms"), Ok(Some(2500)));
    assert_eq!(
        parse_optional_duration("ms", "t", "ms"),
        Err("t must be a valid number".to_owned())
    );
    assert_eq!(parse_required_duration(" 7 s ", "i", "s"), Ok(7));
    assert_eq!(
        parse_required_duration("", "i", "s"),
        Err("i must be a valid number".to_owned())
    );
}

#[test]
fn formats_optional_timeouts() {
    assert_eq!(format_timeout(None), "Default");
    assert_eq!(format_timeout(Some(2_500)), "2500 ms");
}

#[test]
fn formats_uptime_compactly() {
    assert_eq!(format_uptime(8), "8s");
    assert_eq!(format_uptime(68), "1m 8s");
    assert_eq!(format_uptime(3_668), "1h 1m 8s");
}

#[test]
fn uptime_shows_zero_units_between_larger_ones() {
    assert_eq!(format_uptime(0), "0s");
    assert_eq!(format_uptime(3_600), "1h 0m 0s");
    assert_eq!(format_uptime(60), "1m 0s");
}

#[test]
fn dashboard_template_renders_runtime_summary_and_health() {
    let mut upstreams = OrderedMap::new();
    upstreams.insert(
        "api".to_owned(),
        upstream(&["127.0.0.1:3000", "127.0.0.1:3001"]),
    );
    let config = Config {
        server: ServerConfig {
            listen: "0.0.0.0:8080".to_owned(),
        },
        admin: AdminConfig {
            enabled: true,
            listen: "127.0.0.1:9090".to_owned(),
            read_only: false,
        },
        upstreams,
        routes: vec![RouteConfig {
            name: "api".to_owned(),
            host: None,
            path: "/".to_owned(),
            methods: Vec::new(),
            upstream: "api".to_owned(),
            priority: 0,
            policies: RoutePolicies::default(),
        }],
    };
    let mut status = RuntimeStatus::from_config(&config);
    status.set_endpoint_health("api", "127.0.0.1:3001", false);
    let snapshot = status.snapshot();
    let active = snapshot.active_config;
    assert_eq!(active.proxy_listen, "0.0.0.0:8080");
    assert_eq!(active.admin_listen, "127.0.0.1:9090");
    assert_eq!(active.route_count, 1);
    assert_eq!(active.endpoint_count, 2);
    assert!(format_uptime(snapshot.uptime_seconds).ends_with('s'));
    let rows = health_views(snapshot.endpoint_health);
    let row = rows
        .iter()
        .find(|row| row.endpoint == "127.0.0.1:3001")
        .expect("endpoint row");
    assert_eq!(row.status, "Unhealthy");
    assert_eq!(row.status_class, "health-unhealthy");
}

fn simulation_config() -> Config {
    let mut upstreams = OrderedMap::new();
    upstreams.insert("fixture".to_owned(), upstream(&["127.0.0.1:3001"]));
    Config {
        server: ServerConfig {
            listen: "127.0.0.1:18080".to_owned(),
        },
        admin: AdminConfig {
            enabled: true,
            listen: "127.0.0.1:19090".to_owned(),
            read_only: false,
        },
        upstreams,
        routes: vec![RouteConfig {
            name: "echo".to_owned(),
            host: Some("api.test".to_owned()),
            path: "/echo".to_owned(),
            methods: vec!["POST".to_owned()],
            upstream: "fixture".to_owned(),
            priority: 100,
            policies: RoutePolicies::default(),
        }],
    }
}

#[test]
fn matches_using_shared_data_plane_semantics() {
    let view = simulate(
        &simulation_config(),
        &RouteMatchForm {
            host: "api.test:8443".to_owned(),
            path: "/echo/users".to_owned(),
            method: "post".to_owned(),
        },
    );

    assert!(view.matched);
    assert_eq!(view.route_name, "echo");
    assert_eq!(view.upstream, "fixture");
    assert_eq!(view.priority, 100);
    assert_eq!(view.message, "post /echo/users matches the active route evaluation rules.");
}

#[test]
fn reports_no_match() {
    let view = simulate(
        &simulation_config(),
        &RouteMatchForm {
            host: "api.test".to_owned(),
            path: "/echo".to_owned(),
            method: "GET".to_owned(),
        },
    );

    assert!(view.valid);
    assert!(!view.matched);
    assert_eq!(view.message, "No active route matches GET /echo.");
}

#[test]
fn rejects_invalid_simulation_input() {
    let view = simulate(
        &simulation_config(),
        &RouteMatchForm {
            host: String::new(),
            path: "echo".to_owned(),
            method: "POST".to_owned(),
        },
    );

    assert!(!view.valid);
    assert!(view.message.contains("path must start"));
}

#[test]
fn generated_token_is_hex_and_verifies_exactly() {
    let token = CsrfToken::generate().expect("system entropy");
    assert_eq!(token.expose().len(), 64);
    assert!(token.expose().bytes().all(|byte| byte.is_ascii_hexdigit()));
    assert!(token.verify(token.expose()));
    assert!(!token.verify("00"));

    let mut changed = token.expose().as_bytes().to_vec();
    changed[0] = if changed[0] == b'a' { b'b' } else { b'a' };
    let changed = String::from_utf8(changed).expect("ascii token");
    assert!(!token.verify(&changed));
}

#[test]
fn two_generated_tokens_differ_and_use_lowercase_digits() {
    let first = CsrfToken::generate().expect("system entropy");
    let second = CsrfToken::generate().expect("system entropy");
    assert_ne!(first.expose(), second.expose());
    assert!(first
        .expose()
        .chars()
        .all(|c| c.is_ascii_digit() || ('a'..='f').contains(&c)));
}

#[test]
fn simulator_and_data_plane_pick_the_same_route() {
    use_simulator_against_data_plane();
}

fn use_simulator_against_data_plane() {
    let mut config = simulation_config();
    let mut general = config.routes[0].clone();
    general.name = "general".to_owned();
    general.host = None;
    general.path = "/".to_owned();
    general.methods = Vec::new();
    general.priority = 100;
    config.routes.insert(0, general);
    let mut tie = config.routes[1].clone();
    tie.name = "tie".to_owned();
    config.routes.push(tie);

    let status = RuntimeStatus::from_config(&config);
    let ordered = status.routes();
    for (host, path, method) in [
        ("api.test", "/echo/users", "POST"),
        ("api.test", "/other", "GET"),
        ("else.test", "/echo", "POST"),
    ] {
        let view = simulate(
            &config,
            &RouteMatchForm {
                host: host.to_owned(),
                path: path.to_owned(),
                method: method.to_owned(),
            },
        );
        match lungyam::proxy::route_filter(&ordered, Some(host), path, method, None) {
            lungyam::proxy::FilterDecision::Forward { route_index } => {
                assert!(view.matched);
                assert_eq!(ordered[route_index].name, view.route_name);
            }
            lungyam::proxy::FilterDecision::Respond { status, .. } => {
                assert_eq!(status, 404);
                assert!(!view.matched);
            }
        }
    }
    let echo = simulate(
        &config,
        &RouteMatchForm {
            host: "api.test".to_owned(),
            path: "/echo".to_owned(),
            method: "POST".to_owned(),
        },
    );
    assert_eq!(echo.route_name, "echo");
}

#[test]
fn tokens_are_the_hex_text_of_their_bytes() {
    let mut bytes = vec![0u8; 32];
    bytes[0] = 0xab;
    bytes[1] = 0x07;
    bytes[31] = 0xff;
    let token = CsrfToken::from_bytes(&bytes);
    let expected = format!("ab07{}ff", "00".repeat(29));
    assert_eq!(token.expose(), expected);
    assert!(token.verify(&expected));
    assert!(!token.verify(&expected.to_uppercase()));
}

#[test]
fn writes_are_open_only_on_a_writable_loopback_listener() {
    let config = edit_config();
    assert!(writes_enabled(&config));

    let mut ipv6 = edit_config();
    ipv6.admin.listen = "[::1]:9090".to_owned();
    assert!(writes_enabled(&ipv6));

    let mut read_only = edit_config();
    read_only.admin.read_only = true;
    assert!(!writes_enabled(&read_only));

    let mut public = edit_config();
    public.admin.listen = "0.0.0.0:9090".to_owned();
    assert!(!writes_enabled(&public));

    let mut unparsable = edit_config();
    unparsable.admin.listen = "localhost:9090".to_owned();
    assert!(!writes_enabled(&unparsable));

    let mut whole_block = edit_config();
    whole_block.admin.listen = "127.45.6.7:9090".to_owned();
    assert!(writes_enabled(&whole_block));

    let mut mapped = edit_config();
    mapped.admin.listen = "[::ffff:127.0.0.1]:9090".to_owned();
    assert!(!writes_enabled(&mapped));

    let mut other_v6 = edit_config();
    other_v6.admin.listen = "[::2]:9090".to_owned();
    assert!(!writes_enabled(&other_v6));
}

#[test]
fn loopback_octets_follow_the_documented_ranges() {
    assert!(is_loopback_octets(&vec![127, 0, 0, 1]));
    assert!(is_loopback_octets(&vec![127, 255, 255, 254]));
    assert!(!is_loopback_octets(&vec![128, 0, 0, 1]));
    let mut v6 = vec![0u8; 16];
    assert!(!is_loopback_octets(&v6));
    v6[15] = 1;
    assert!(is_loopback_octets(&v6));
    v6[0] = 0xfe;
    assert!(!is_loopback_octets(&v6));
    assert!(!is_loopback_octets(&vec![127, 0, 0]));
}
