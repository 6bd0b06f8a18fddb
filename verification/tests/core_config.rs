use lungyam::config::{
    default_route_path, AdminConfig, Config, ConfigError, HeaderTransform, RouteConfig,
    RoutePolicies, ServerConfig, UpstreamConfig, DEFAULT_HEALTH_CHECK_INTERVAL_SECONDS,
};
use lungyam::ordered::OrderedMap;

/// The configuration that the YAML fixture of the configuration tests
/// describes, with every omitted field at its default.
fn valid() -> Config {
    let mut upstreams = OrderedMap::new();
    upstreams.insert(
        "api".to_owned(),
        UpstreamConfig {
            endpoints: vec!["127.0.0.1:3000".to_owned()],
            connect_timeout_ms: None,
            read_timeout_ms: None,
            write_timeout_ms: None,
            health_check_interval_seconds: DEFAULT_HEALTH_CHECK_INTERVAL_SECONDS,
        },
    );
    Config {
        server: ServerConfig {
            listen: "0.0.0.0:8080".to_owned(),
        },
        admin: AdminConfig::default(),
        upstreams,
        routes: vec![RouteConfig {
            name: "api".to_owned(),
            host: None,
            path: "/api".to_owned(),
            methods: vec!["GET".to_owned(), "POST".to_owned()],
            upstream: "api".to_owned(),
            priority: 0,
            policies: RoutePolicies::default(),
        }],
    }
}

fn validation_message(config: &Config) -> String {
    match config.validate() {
        Err(ConfigError::Validation(message)) => message,
        other => panic!("expected a validation error, got {other:?}"),
    }
}

#[test]
fn parses_valid_config() {
    let config = valid();
    assert!(config.validate().is_ok());
    assert_eq!(config.server.listen, "0.0.0.0:8080");
    assert!(!config.admin.enabled);
    assert_eq!(config.admin.listen, "127.0.0.1:9090");
    assert_eq!(config.routes[0].upstream, "api");
    assert_eq!(
        config
            .upstreams
            .get(&"api".to_owned())
            .expect("api upstream")
            .health_check_interval_seconds,
        5
    );
    assert_eq!(default_route_path(), "/");
}

#[test]
fn accepts_enabled_admin_listener() {
    let mut config = valid();
    config.admin.enabled = true;
    config.admin.listen = "127.0.0.1:9091".to_owned();
    assert!(config.validate().is_ok());
    assert!(config.admin.enabled);
    assert_eq!(config.admin.listen, "127.0.0.1:9091");
}

#[test]
fn rejects_invalid_admin_listener() {
    let mut config = valid();
    config.admin.enabled = true;
    config.admin.listen = "not-a-socket".to_owned();
    assert_eq!(
        validation_message(&config),
        "admin.listen must be a valid socket address"
    );
}

#[test]
fn rejects_unknown_upstream() {
    let mut config = valid();
    config.routes[0].upstream = "missing".to_owned();
    assert_eq!(
        validation_message(&config),
        "route 'api' references unknown upstream 'missing'"
    );
}

#[test]
fn rejects_duplicate_route_names() {
    let mut config = valid();
    let mut other = config.routes[0].clone();
    other.path = "/other".to_owned();
    other.methods = Vec::new();
    config.routes.push(other);
    assert_eq!(validation_message(&config), "duplicate route name 'api'");
}

#[test]
fn rejects_zero_health_check_interval() {
    let mut config = valid();
    config.upstreams.insert(
        "api".to_owned(),
        UpstreamConfig {
            endpoints: vec!["127.0.0.1:3000".to_owned()],
            connect_timeout_ms: None,
            read_timeout_ms: None,
            write_timeout_ms: None,
            health_check_interval_seconds: 0,
        },
    );
    assert_eq!(
        validation_message(&config),
        "upstream 'api' health_check_interval_seconds must be greater than zero"
    );
}

#[test]
fn rejects_invalid_header_transform_name() {
    let mut config = valid();
    let mut headers = HeaderTransform::default();
    headers.add.insert("bad header".to_owned(), "value".to_owned());
    config.routes[0].policies.request_headers = headers;
    let error = config.validate().expect_err("invalid header name");
    assert!(matches!(error, ConfigError::Validation(_)));
    assert!(error.describe().contains("header add name"));
}

#[test]
fn rejects_invalid_header_transform_value() {
    let mut config = valid();
    let mut headers = HeaderTransform::default();
    headers.add.insert("x-test".to_owned(), "bad\nvalue".to_owned());
    config.routes[0].policies.response_headers = headers;
    let error = config.validate().expect_err("invalid header value");
    assert!(matches!(error, ConfigError::Validation(_)));
    assert!(error.describe().contains("header value"));
}

#[test]
fn checks_come_in_order_listeners_upstreams_routes() {
    let mut config = valid();
    config.server.listen = "  ".to_owned();
    config.routes[0].path = "no-slash".to_owned();
    assert_eq!(validation_message(&config), "server.listen must not be empty");

    let mut config = valid();
    config.upstreams = OrderedMap::new();
    assert_eq!(validation_message(&config), "at least one upstream is required");

    let mut config = valid();
    config.upstreams.insert(
        "api".to_owned(),
        UpstreamConfig {
            endpoints: vec![" ".to_owned()],
            connect_timeout_ms: None,
            read_timeout_ms: None,
            write_timeout_ms: None,
            health_check_interval_seconds: 5,
        },
    );
    assert_eq!(validation_message(&config), "upstream 'api' contains an empty endpoint");

    let mut config = valid();
    config.routes[0].methods = vec!["GET".to_owned(), " ".to_owned()];
    assert_eq!(
        validation_message(&config),
        "route 'api' contains an empty HTTP method"
    );

    let mut config = valid();
    let mut headers = HeaderTransform::default();
    headers.remove = vec!["bad name".to_owned()];
    config.routes[0].policies.request_headers = headers;
    assert_eq!(
        validation_message(&config),
        "route 'api' request header remove name 'bad name' is invalid"
    );

    let mut config = valid();
    config.routes[0].policies.rate_limit = Some(lungyam::config::RateLimitConfig {
        requests: 0,
        window_seconds: 10,
    });
    assert_eq!(
        validation_message(&config),
        "route 'api' rate limit values must be greater than zero"
    );
}

#[test]
fn header_names_follow_the_token_rules() {
    let mut config = valid();
    let mut headers = HeaderTransform::default();
    headers.add.insert("X-Custom_Header.v1".to_owned(), "tab\tand unicode \u{e9}".to_owned());
    config.routes[0].policies.request_headers = headers;
    assert!(config.validate().is_ok());

    let mut config = valid();
    let mut headers = HeaderTransform::default();
    headers.add.insert("caf\u{e9}".to_owned(), "v".to_owned());
    config.routes[0].policies.request_headers = headers;
    assert!(config.validate().is_err());
}
