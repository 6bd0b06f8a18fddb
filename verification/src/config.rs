//! Configuration model and validation.

use vstd::prelude::*;

use crate::ordered::{has_key, DeepCopy, OrderedMap, vec_deep_copy, vec_deep_eq};
use crate::text::{is_blank, is_blank_str, starts_with_char};

verus! {

// ---------------------------------------------------------------------------
// Models
// ---------------------------------------------------------------------------

pub struct ServerModel {
    pub listen: Seq<char>,
}

pub struct AdminModel {
    pub enabled: bool,
    pub listen: Seq<char>,
    pub read_only: bool,
}

pub struct UpstreamModel {
    pub endpoints: Seq<Seq<char>>,
    pub connect_timeout_ms: Option<u64>,
    pub read_timeout_ms: Option<u64>,
    pub write_timeout_ms: Option<u64>,
    pub health_check_interval_seconds: u64,
}

pub struct HeaderTransformModel {
    /// Header names and values to add, in increasing name order.
    pub add: Seq<(Seq<char>, Seq<char>)>,
    pub remove: Seq<Seq<char>>,
}

pub struct RoutePoliciesModel {
    pub request_headers: HeaderTransformModel,
    pub response_headers: HeaderTransformModel,
    pub rate_limit: Option<RateLimitConfig>,
    pub max_request_body_bytes: Option<usize>,
}

pub struct RouteModel {
    pub name: Seq<char>,
    pub host: Option<Seq<char>>,
    pub path: Seq<char>,
    pub methods: Seq<Seq<char>>,
    pub upstream: Seq<char>,
    pub priority: i32,
    pub policies: RoutePoliciesModel,
}

pub struct ConfigModel {
    pub server: ServerModel,
    pub admin: AdminModel,
    /// Upstreams by name, in increasing name order.
    pub upstreams: Seq<(Seq<char>, UpstreamModel)>,
    pub routes: Seq<RouteModel>,
}

/// `c` with its route list replaced by `routes`.
pub open spec fn with_routes(c: ConfigModel, routes: Seq<RouteModel>) -> ConfigModel {
    ConfigModel { server: c.server, admin: c.admin, upstreams: c.upstreams, routes }
}

/// `c` with its upstreams replaced by `upstreams`.
pub open spec fn with_upstreams(
    c: ConfigModel,
    upstreams: Seq<(Seq<char>, UpstreamModel)>,
) -> ConfigModel {
    ConfigModel { server: c.server, admin: c.admin, upstreams, routes: c.routes }
}

/// The text of a validation failure as `ConfigError`'s display writes it.
pub open spec fn invalid_text(problem: Seq<char>) -> Seq<char> {
    "invalid configuration: "@ + problem
}

/// The outcome of validating a configuration, with the failure described as text.
pub open spec fn checked(c: ConfigModel) -> Result<ConfigModel, Seq<char>> {
    match config_problem(c) {
        Some(m) => Err(invalid_text(m)),
        None => Ok(c),
    }
}

pub open spec fn strings_view(v: Seq<String>) -> Seq<Seq<char>> {
    v.map_values(|s: String| s@)
}

pub open spec fn opt_string_view(o: Option<String>) -> Option<Seq<char>> {
    match o {
        Some(s) => Some(s@),
        None => None,
    }
}

pub fn opt_string_copy(o: &Option<String>) -> (r: Option<String>)
    ensures
        opt_string_view(r) == opt_string_view(*o),
{
    match o {
        Some(s) => Some(s.clone()),
        None => None,
    }
}

pub fn opt_string_eq(a: &Option<String>, b: &Option<String>) -> (r: bool)
    ensures
        r == (opt_string_view(*a) == opt_string_view(*b)),
{
    match (a, b) {
        (Some(x), Some(y)) => x.deep_eq(y),
        (None, None) => true,
        _ => false,
    }
}

// ---------------------------------------------------------------------------
// Configuration types
// ---------------------------------------------------------------------------

/// Listener settings.
#[derive(Debug, Clone, PartialEq, Eq)]
pub struct ServerConfig {
    pub listen: String,
}

/// Admin control-plane listener settings.
#[derive(Debug, Clone, PartialEq, Eq)]
pub struct AdminConfig {
    pub enabled: bool,
    pub listen: String,
    pub read_only: bool,
}

/// A named pool of backend endpoints.
#[derive(Debug, Clone, PartialEq, Eq)]
pub struct UpstreamConfig {
    pub endpoints: Vec<String>,
    pub connect_timeout_ms: Option<u64>,
    pub read_timeout_ms: Option<u64>,
    pub write_timeout_ms: Option<u64>,
    pub health_check_interval_seconds: u64,
}

/// Declarative request route.
#[derive(Debug, Clone, PartialEq, Eq)]
pub struct RouteConfig {
    pub name: String,
    pub host: Option<String>,
    pub path: String,
    pub methods: Vec<String>,
    pub upstream: String,
    pub priority: i32,
    pub policies: RoutePolicies,
}

/// Policies attached to a route.
#[derive(Debug, Clone, PartialEq, Eq)]
pub struct RoutePolicies {
    pub request_headers: HeaderTransform,
    pub response_headers: HeaderTransform,
    pub rate_limit: Option<RateLimitConfig>,
    pub max_request_body_bytes: Option<usize>,
}

/// Header mutations applied in order: remove, then add/replace.
#[derive(Debug, Clone, PartialEq, Eq)]
pub struct HeaderTransform {
    pub add: OrderedMap<String, String>,
    pub remove: Vec<String>,
}

/// Fixed-window local rate limit configuration.
#[derive(Debug, Clone, Copy, PartialEq, Eq, Structural)]
pub struct RateLimitConfig {
    pub requests: u64,
    pub window_seconds: u64,
}

/// Top-level Lungyam configuration.
#[derive(Debug, Clone, PartialEq, Eq)]
pub struct Config {
    pub server: ServerConfig,
    pub admin: AdminConfig,
    pub upstreams: OrderedMap<String, UpstreamConfig>,
    pub routes: Vec<RouteConfig>,
}

impl View for ServerConfig {
    type V = ServerModel;

    open spec fn view(&self) -> ServerModel {
        ServerModel { listen: self.listen@ }
    }
}

impl View for AdminConfig {
    type V = AdminModel;

    open spec fn view(&self) -> AdminModel {
        AdminModel { enabled: self.enabled, listen: self.listen@, read_only: self.read_only }
    }
}

impl View for UpstreamConfig {
    type V = UpstreamModel;

    open spec fn view(&self) -> UpstreamModel {
        UpstreamModel {
            endpoints: strings_view(self.endpoints@),
            connect_timeout_ms: self.connect_timeout_ms,
            read_timeout_ms: self.read_timeout_ms,
            write_timeout_ms: self.write_timeout_ms,
            health_check_interval_seconds: self.health_check_interval_seconds,
        }
    }
}

impl View for HeaderTransform {
    type V = HeaderTransformModel;

    open spec fn view(&self) -> HeaderTransformModel {
        HeaderTransformModel { add: self.add@, remove: strings_view(self.remove@) }
    }
}

impl View for RateLimitConfig {
    type V = RateLimitConfig;

    open spec fn view(&self) -> RateLimitConfig {
        *self
    }
}

impl View for RoutePolicies {
    type V = RoutePoliciesModel;

    open spec fn view(&self) -> RoutePoliciesModel {
        RoutePoliciesModel {
            request_headers: self.request_headers@,
            response_headers: self.response_headers@,
            rate_limit: self.rate_limit,
            max_request_body_bytes: self.max_request_body_bytes,
        }
    }
}

impl View for RouteConfig {
    type V = RouteModel;

    open spec fn view(&self) -> RouteModel {
        RouteModel {
            name: self.name@,
            host: opt_string_view(self.host),
            path: self.path@,
            methods: strings_view(self.methods@),
            upstream: self.upstream@,
            priority: self.priority,
            policies: self.policies@,
        }
    }
}

pub open spec fn routes_view(routes: Seq<RouteConfig>) -> Seq<RouteModel> {
    routes.map_values(|r: RouteConfig| r@)
}

impl View for Config {
    type V = ConfigModel;

    open spec fn view(&self) -> ConfigModel {
        ConfigModel {
            server: self.server@,
            admin: self.admin@,
            upstreams: self.upstreams@,
            routes: routes_view(self.routes@),
        }
    }
}

impl DeepCopy for ServerConfig {
    fn deep_eq(&self, other: &Self) -> (r: bool) {
        self.listen.deep_eq(&other.listen)
    }

    fn deep_copy(&self) -> (r: Self) {
        ServerConfig { listen: self.listen.clone() }
    }
}

impl DeepCopy for AdminConfig {
    fn deep_eq(&self, other: &Self) -> (r: bool) {
        self.enabled == other.enabled && self.listen.deep_eq(&other.listen) && self.read_only
            == other.read_only
    }

    fn deep_copy(&self) -> (r: Self) {
        AdminConfig {
            enabled: self.enabled,
            listen: self.listen.clone(),
            read_only: self.read_only,
        }
    }
}

impl DeepCopy for UpstreamConfig {
    fn deep_eq(&self, other: &Self) -> (r: bool) {
        vec_deep_eq(&self.endpoints, &other.endpoints) && self.connect_timeout_ms
            == other.connect_timeout_ms && self.read_timeout_ms == other.read_timeout_ms
            && self.write_timeout_ms == other.write_timeout_ms
            && self.health_check_interval_seconds == other.health_check_interval_seconds
    }

    fn deep_copy(&self) -> (r: Self) {
        UpstreamConfig {
            endpoints: vec_deep_copy(&self.endpoints),
            connect_timeout_ms: self.connect_timeout_ms,
            read_timeout_ms: self.read_timeout_ms,
            write_timeout_ms: self.write_timeout_ms,
            health_check_interval_seconds: self.health_check_interval_seconds,
        }
    }
}

impl DeepCopy for HeaderTransform {
    fn deep_eq(&self, other: &Self) -> (r: bool) {
        self.add.deep_eq(&other.add) && vec_deep_eq(&self.remove, &other.remove)
    }

    fn deep_copy(&self) -> (r: Self) {
        HeaderTransform { add: self.add.deep_copy(), remove: vec_deep_copy(&self.remove) }
    }
}

impl DeepCopy for RateLimitConfig {
    fn deep_eq(&self, other: &Self) -> (r: bool) {
        self.requests == other.requests && self.window_seconds == other.window_seconds
    }

    fn deep_copy(&self) -> (r: Self) {
        *self
    }
}

impl DeepCopy for RoutePolicies {
    fn deep_eq(&self, other: &Self) -> (r: bool) {
        self.request_headers.deep_eq(&other.request_headers) && self.response_headers.deep_eq(
            &other.response_headers,
        ) && self.rate_limit == other.rate_limit && self.max_request_body_bytes
            == other.max_request_body_bytes
    }

    fn deep_copy(&self) -> (r: Self) {
        RoutePolicies {
            request_headers: self.request_headers.deep_copy(),
            response_headers: self.response_headers.deep_copy(),
            rate_limit: self.rate_limit,
            max_request_body_bytes: self.max_request_body_bytes,
        }
    }
}

impl DeepCopy for RouteConfig {
    fn deep_eq(&self, other: &Self) -> (r: bool) {
        self.name.deep_eq(&other.name) && opt_string_eq(&self.host, &other.host)
            && self.path.deep_eq(&other.path) && vec_deep_eq(&self.methods, &other.methods)
            && self.upstream.deep_eq(&other.upstream) && self.priority == other.priority
            && self.policies.deep_eq(&other.policies)
    }

    fn deep_copy(&self) -> (r: Self) {
        RouteConfig {
            name: self.name.clone(),
            host: opt_string_copy(&self.host),
            path: self.path.clone(),
            methods: vec_deep_copy(&self.methods),
            upstream: self.upstream.clone(),
            priority: self.priority,
            policies: self.policies.deep_copy(),
        }
    }
}

impl DeepCopy for Config {
    fn deep_eq(&self, other: &Self) -> (r: bool) {
        let same_routes = vec_deep_eq(&self.routes, &other.routes);
        proof {
            assert(routes_view(self.routes@) == self.routes@.map_values(|x: RouteConfig| x@));
        }
        self.server.deep_eq(&other.server) && self.admin.deep_eq(&other.admin)
            && self.upstreams.deep_eq(&other.upstreams) && same_routes
    }

    fn deep_copy(&self) -> (r: Self) {
        Config {
            server: self.server.deep_copy(),
            admin: self.admin.deep_copy(),
            upstreams: self.upstreams.deep_copy(),
            routes: vec_deep_copy(&self.routes),
        }
    }
}

impl Default for HeaderTransform {
    fn default() -> (r: Self)
        ensures
            r@.add.len() == 0,
            r@.remove.len() == 0,
    {
        let r = HeaderTransform { add: OrderedMap::new(), remove: Vec::new() };
        assert(r@.remove =~= Seq::<Seq<char>>::empty());
        r
    }
}

impl Default for RoutePolicies {
    fn default() -> (r: Self)
        ensures
            r@.request_headers.add.len() == 0,
            r@.request_headers.remove.len() == 0,
            r@.response_headers.add.len() == 0,
            r@.response_headers.remove.len() == 0,
            r@.rate_limit is None,
            r@.max_request_body_bytes is None,
    {
        RoutePolicies {
            request_headers: HeaderTransform::default(),
            response_headers: HeaderTransform::default(),
            rate_limit: None,
            max_request_body_bytes: None,
        }
    }
}

/// The admin listener used when the configuration does not name one.
pub open spec fn default_admin_listen() -> Seq<char> {
    "127.0.0.1:9090"@
}

impl Default for AdminConfig {
    fn default() -> (r: Self)
        ensures
            !r.enabled,
            r.listen@ == default_admin_listen(),
            !r.read_only,
    {
        AdminConfig { enabled: false, listen: String::from_str("127.0.0.1:9090"), read_only: false }
    }
}

/// The route path used when a route does not name one.
pub fn default_route_path() -> (r: String)
    ensures
        r@ == "/"@,
{
    String::from_str("/")
}

/// The health-check interval used when an upstream does not name one.
pub const DEFAULT_HEALTH_CHECK_INTERVAL_SECONDS: u64 = 5;

// ---------------------------------------------------------------------------
// Errors
// ---------------------------------------------------------------------------

/// Configuration loading and validation errors.
#[derive(Debug, Clone, PartialEq, Eq)]
pub enum ConfigError {
    Io(String),
    Parse(String),
    Validation(String),
}

impl ConfigError {
    /// The human-readable description of the error.
    pub fn describe(&self) -> (r: String)
        ensures
            r@ == match self {
                ConfigError::Io(m) => "failed to read configuration: "@ + m@,
                ConfigError::Parse(m) => "failed to parse YAML configuration: "@ + m@,
                ConfigError::Validation(m) => "invalid configuration: "@ + m@,
            },
    {
        match self {
            ConfigError::Io(m) => {
                let mut r = String::from_str("failed to read configuration: ");
                r.append(m.as_str());
                r
            },
            ConfigError::Parse(m) => {
                let mut r = String::from_str("failed to parse YAML configuration: ");
                r.append(m.as_str());
                r
            },
            ConfigError::Validation(m) => {
                let mut r = String::from_str("invalid configuration: ");
                r.append(m.as_str());
                r
            },
        }
    }
}

// ---------------------------------------------------------------------------
// Outside checks
// ---------------------------------------------------------------------------

/// Token characters of RFC 7230, the bytes that `http`'s header-name table
/// maps to a non-zero value.
pub open spec fn is_token_char(c: char) -> bool {
    ||| ('a' <= c && c <= 'z')
    ||| ('A' <= c && c <= 'Z')
    ||| ('0' <= c && c <= '9')
    ||| c == '!' || c == '#' || c == '$' || c == '%' || c == '&' || c == '\''
    ||| c == '*' || c == '+' || c == '-' || c == '.' || c == '^' || c == '_'
    ||| c == '`' || c == '|' || c == '~'
}

/// The header names that `http::HeaderName::from_bytes` accepts: one to
/// 65535 bytes, all token characters (each of them a single byte).
pub open spec fn header_name_valid(name: Seq<char>) -> bool {
    &&& 1 <= name.len() <= 65535
    &&& forall|i: int| 0 <= i < name.len() ==> is_token_char(name[i])
}

/// The header values that `http::HeaderValue::from_str` accepts: no byte
/// below 32 other than tab, and no DEL; bytes of non-ASCII characters are
/// all at least 128 and accepted.
pub open spec fn header_value_valid(value: Seq<char>) -> bool {
    forall|i: int|
        0 <= i < value.len() ==> value[i] == '\t' || (value[i] as u32 >= 32 && value[i] as u32
            != 127)
}

/// What std's `SocketAddr` parser makes of the text: the octets of its IP
/// address (four for IPv4, sixteen for IPv6) when the text is an IPv4 or
/// bracketed IPv6 address followed by a port, and nothing otherwise.
pub uninterp spec fn socket_address_ip(text: Seq<char>) -> Option<Seq<u8>>;

/// Whether std's `SocketAddr` parser accepts the text.
pub open spec fn socket_address_syntax(text: Seq<char>) -> bool {
    socket_address_ip(text) is Some
}

/// Calls `http::HeaderName::from_bytes` on the bytes of `name`; it claims the
/// call succeeds exactly on the names that `header_name_valid` describes,
/// as the crate's header-character table and length limit give them.
#[verifier::external_body]
fn header_name_accepted(name: &str) -> (r: bool)
    ensures
        r == header_name_valid(name@),
{
    http::HeaderName::from_bytes(name.as_bytes()).is_ok()
}

/// Calls `http::HeaderValue::from_str`; it claims the call succeeds exactly
/// on the values that `header_value_valid` describes, as the crate's
/// per-byte check gives them.
#[verifier::external_body]
fn header_value_accepted(value: &str) -> (r: bool)
    ensures
        r == header_value_valid(value@),
{
    http::HeaderValue::from_str(value).is_ok()
}

/// Parses the text with `<core::net::SocketAddr as FromStr>::from_str` and
/// hands out the octets of the parsed address's IP. It claims that the
/// result is the name `socket_address_ip` applied to the text, and that an
/// address has four octets (IPv4) or sixteen (IPv6), as `Ipv4Addr::octets`
/// and `Ipv6Addr::octets` return them. The address grammar is left
/// unstated.
#[verifier::external_body]
pub(crate) fn parse_listen_ip(text: &str) -> (r: Option<Vec<u8>>)
    ensures
        match r {
            Some(o) => socket_address_ip(text@) == Some(o@),
            None => socket_address_ip(text@) is None,
        },
        r matches Some(o) ==> o@.len() == 4 || o@.len() == 16,
{
    match text.parse::<core::net::SocketAddr>() {
        Ok(core::net::SocketAddr::V4(address)) => Some(address.ip().octets().to_vec()),
        Ok(core::net::SocketAddr::V6(address)) => Some(address.ip().octets().to_vec()),
        Err(_) => None,
    }
}

// ---------------------------------------------------------------------------
// Validation rules
// ---------------------------------------------------------------------------

/// `prefix + subject + suffix`, the shape of every validation message.
pub open spec fn quoted(prefix: Seq<char>, subject: Seq<char>, suffix: Seq<char>) -> Seq<char> {
    prefix + subject + suffix
}

pub fn quoted_string(prefix: &str, subject: &str, suffix: &str) -> (r: String)
    ensures
        r@ == quoted(prefix@, subject@, suffix@),
{
    let mut r = String::from_str(prefix);
    r.append(subject);
    r.append(suffix);
    r
}

/// The first problem of one upstream, if it has one.
pub open spec fn upstream_problem(name: Seq<char>, u: UpstreamModel) -> Option<Seq<char>> {
    if u.endpoints.len() == 0 {
        Some(quoted("upstream '"@, name, "' must contain at least one endpoint"@))
    } else if exists|i: int| 0 <= i < u.endpoints.len() && is_blank(u.endpoints[i]) {
        Some(quoted("upstream '"@, name, "' contains an empty endpoint"@))
    } else if u.health_check_interval_seconds == 0 {
        Some(
            quoted(
                "upstream '"@,
                name,
                "' health_check_interval_seconds must be greater than zero"@,
            ),
        )
    } else {
        None
    }
}

/// The problem of the first upstream, in name order, that has one.
pub open spec fn first_upstream_problem(ups: Seq<(Seq<char>, UpstreamModel)>) -> Option<Seq<char>>
    decreases ups.len(),
{
    if ups.len() == 0 {
        None
    } else {
        match upstream_problem(ups[0].0, ups[0].1) {
            Some(m) => Some(m),
            None => first_upstream_problem(ups.drop_first()),
        }
    }
}

/// The problem of the first header name to remove that `http` refuses.
pub open spec fn first_remove_problem(
    route: Seq<char>,
    direction: Seq<char>,
    names: Seq<Seq<char>>,
) -> Option<Seq<char>>
    decreases names.len(),
{
    if names.len() == 0 {
        None
    } else if !header_name_valid(names[0]) {
        Some(
            "route '"@ + route + "' "@ + direction + " header remove name '"@ + names[0]
                + "' is invalid"@,
        )
    } else {
        first_remove_problem(route, direction, names.drop_first())
    }
}

/// The problem of the first header to add, in name order, whose name or
/// value `http` refuses.
pub open spec fn first_add_problem(
    route: Seq<char>,
    direction: Seq<char>,
    adds: Seq<(Seq<char>, Seq<char>)>,
) -> Option<Seq<char>>
    decreases adds.len(),
{
    if adds.len() == 0 {
        None
    } else if !header_name_valid(adds[0].0) {
        Some(
            "route '"@ + route + "' "@ + direction + " header add name '"@ + adds[0].0
                + "' is invalid"@,
        )
    } else if !header_value_valid(adds[0].1) {
        Some(
            "route '"@ + route + "' "@ + direction + " header value for '"@ + adds[0].0
                + "' is invalid"@,
        )
    } else {
        first_add_problem(route, direction, adds.drop_first())
    }
}

/// The first problem of a header transform: removals are checked first.
pub open spec fn transform_problem(
    route: Seq<char>,
    direction: Seq<char>,
    t: HeaderTransformModel,
) -> Option<Seq<char>> {
    match first_remove_problem(route, direction, t.remove) {
        Some(m) => Some(m),
        None => first_add_problem(route, direction, t.add),
    }
}

/// An earlier route carries the same name as route `i`.
pub open spec fn name_seen_before(routes: Seq<RouteModel>, i: int) -> bool {
    exists|j: int| 0 <= j < i && routes[j].name == routes[i].name
}

/// The first problem of route `i` of configuration `c`.
pub open spec fn route_problem(c: ConfigModel, i: int) -> Option<Seq<char>> {
    let r = c.routes[i];
    if name_seen_before(c.routes, i) {
        Some(quoted("duplicate route name '"@, r.name, "'"@))
    } else if !(r.path.len() > 0 && r.path[0] == '/') {
        Some(quoted("route '"@, r.name, "' path must start with '/'"@))
    } else if !has_key(c.upstreams, r.upstream) {
        Some(
            "route '"@ + r.name + "' references unknown upstream '"@ + r.upstream + "'"@,
        )
    } else if exists|m: int| 0 <= m < r.methods.len() && is_blank(r.methods[m]) {
        Some(quoted("route '"@, r.name, "' contains an empty HTTP method"@))
    } else if transform_problem(r.name, "request"@, r.policies.request_headers) is Some {
        transform_problem(r.name, "request"@, r.policies.request_headers)
    } else if transform_problem(r.name, "response"@, r.policies.response_headers) is Some {
        transform_problem(r.name, "response"@, r.policies.response_headers)
    } else if r.policies.rate_limit matches Some(l) && (l.requests == 0 || l.window_seconds
        == 0) {
        Some(quoted("route '"@, r.name, "' rate limit values must be greater than zero"@))
    } else {
        None
    }
}

/// The problem of the first route at or after `from` that has one.
pub open spec fn first_route_problem(c: ConfigModel, from: int) -> Option<Seq<char>>
    decreases c.routes.len() - from,
{
    if from < 0 || from >= c.routes.len() {
        None
    } else {
        match route_problem(c, from) {
            Some(m) => Some(m),
            None => first_route_problem(c, from + 1),
        }
    }
}

/// The first rule that a configuration breaks, checked in this order: the
/// listeners, the upstreams in name order, then the routes in order.
pub open spec fn config_problem(c: ConfigModel) -> Option<Seq<char>> {
    if is_blank(c.server.listen) {
        Some("server.listen must not be empty"@)
    } else if is_blank(c.admin.listen) {
        Some("admin.listen must not be empty"@)
    } else if !socket_address_syntax(c.admin.listen) {
        Some("admin.listen must be a valid socket address"@)
    } else if c.upstreams.len() == 0 {
        Some("at least one upstream is required"@)
    } else if first_upstream_problem(c.upstreams) is Some {
        first_upstream_problem(c.upstreams)
    } else {
        first_route_problem(c, 0)
    }
}

/// A configuration is valid when it breaks no rule.
pub open spec fn config_valid(c: ConfigModel) -> bool {
    config_problem(c) is None
}

fn upstream_check(name: &String, u: &UpstreamConfig) -> (r: Option<String>)
    ensures
        match upstream_problem(name@, u@) {
            Some(m) => r matches Some(s) && s@ == m,
            None => r is None,
        },
{
    if u.endpoints.len() == 0 {
        return Some(
            quoted_string("upstream '", name.as_str(), "' must contain at least one endpoint"),
        );
    }
    let mut i: usize = 0;
    while i < u.endpoints.len()
        invariant
            i <= u.endpoints@.len(),
            forall|j: int| 0 <= j < i ==> !is_blank(#[trigger] u@.endpoints[j]),
        decreases u.endpoints@.len() - i,
    {
        if is_blank_str(u.endpoints[i].as_str()) {
            assert(is_blank(u@.endpoints[i as int]));
            return Some(quoted_string("upstream '", name.as_str(), "' contains an empty endpoint"));
        }
        i = i + 1;
    }
    if u.health_check_interval_seconds == 0 {
        return Some(
            quoted_string(
                "upstream '",
                name.as_str(),
                "' health_check_interval_seconds must be greater than zero",
            ),
        );
    }
    None
}

fn transform_message(
    route_name: &str,
    direction: &str,
    middle: &str,
    subject: &str,
    tail: &str,
) -> (r: String)
    ensures
        r@ == "route '"@ + route_name@ + "' "@ + direction@ + middle@ + subject@ + tail@,
{
    let mut r = String::from_str("route '");
    r.append(route_name);
    r.append("' ");
    r.append(direction);
    r.append(middle);
    r.append(subject);
    r.append(tail);
    r
}

/// Checks the header names and values of one transform.
#[verifier::loop_isolation(false)]
pub fn validate_header_transform(
    route_name: &str,
    direction: &str,
    transform: &HeaderTransform,
) -> (r: Result<(), ConfigError>)
    ensures
        match transform_problem(route_name@, direction@, transform@) {
            Some(m) => r matches Err(ConfigError::Validation(s)) && s@ == m,
            None => r is Ok,
        },
{
    let ghost names = transform@.remove;
    let mut i: usize = 0;
    proof {
        assert(names.skip(0) =~= names);
    }
    while i < transform.remove.len()
        invariant
            i <= names.len(),
            names == transform@.remove,
            first_remove_problem(route_name@, direction@, names) == first_remove_problem(
                route_name@,
                direction@,
                names.skip(i as int),
            ),
        decreases names.len() - i,
    {
        let name = &transform.remove[i];
        assert(names.skip(i as int)[0] == name@);
        if !header_name_accepted(name.as_str()) {
            return Err(
                ConfigError::Validation(
                    transform_message(
                        route_name,
                        direction,
                        " header remove name '",
                        name.as_str(),
                        "' is invalid",
                    ),
                ),
            );
        }
        assert(names.skip(i as int).drop_first() =~= names.skip(i + 1));
        i = i + 1;
    }
    assert(names.skip(i as int).len() == 0);
    let ghost adds = transform@.add;
    let mut k: usize = 0;
    proof {
        assert(adds.skip(0) =~= adds);
    }
    while k < transform.add.len()
        invariant
            k <= adds.len(),
            adds == transform@.add,
            first_remove_problem(route_name@, direction@, names) is None,
            first_add_problem(route_name@, direction@, adds) == first_add_problem(
                route_name@,
                direction@,
                adds.skip(k as int),
            ),
        decreases adds.len() - k,
    {
        let name = transform.add.key_at(k);
        let value = transform.add.value_at(k);
        assert(adds.skip(k as int)[0] == adds[k as int]);
        if !header_name_accepted(name.as_str()) {
            return Err(
                ConfigError::Validation(
                    transform_message(
                        route_name,
                        direction,
                        " header add name '",
                        name.as_str(),
                        "' is invalid",
                    ),
                ),
            );
        }
        if !header_value_accepted(value.as_str()) {
            return Err(
                ConfigError::Validation(
                    transform_message(
                        route_name,
                        direction,
                        " header value for '",
                        name.as_str(),
                        "' is invalid",
                    ),
                ),
            );
        }
        assert(adds.skip(k as int).drop_first() =~= adds.skip(k + 1));
        k = k + 1;
    }
    Ok(())
}

#[verifier::loop_isolation(false)]
fn route_check(config: &Config, i: usize) -> (r: Option<String>)
    requires
        i < config.routes@.len(),
    ensures
        match route_problem(config@, i as int) {
            Some(m) => r matches Some(s) && s@ == m,
            None => r is None,
        },
{
    let ghost c = config@;
    let route = &config.routes[i];
    assert(c.routes.len() == config.routes@.len());
    assert(c.routes[i as int] == route@);
    let mut j: usize = 0;
    while j < i
        invariant
            j <= i < config.routes@.len(),
            c == config@,
            c.routes.len() == config.routes@.len(),
            route@ == c.routes[i as int],
            forall|k: int| 0 <= k < j ==> c.routes[k].name != route@.name,
        decreases i - j,
    {
        assert(c.routes[j as int] == config.routes@[j as int]@);
        if config.routes[j].name.deep_eq(&route.name) {
            return Some(quoted_string("duplicate route name '", route.name.as_str(), "'"));
        }
        j = j + 1;
    }
    if !starts_with_char(route.path.as_str(), '/') {
        return Some(quoted_string("route '", route.name.as_str(), "' path must start with '/'"));
    }
    if !config.upstreams.contains_key(&route.upstream) {
        let mut m = String::from_str("route '");
        m.append(route.name.as_str());
        m.append("' references unknown upstream '");
        m.append(route.upstream.as_str());
        m.append("'");
        return Some(m);
    }
    let mut k: usize = 0;
    while k < route.methods.len()
        invariant
            k <= route.methods@.len(),
            i < c.routes.len(),
            route@ == c.routes[i as int],
            forall|x: int| 0 <= x < k ==> !is_blank(#[trigger] route@.methods[x]),
        decreases route.methods@.len() - k,
    {
        if is_blank_str(route.methods[k].as_str()) {
            assert(route@.methods[k as int] == route.methods@[k as int]@);
            assert(is_blank(route@.methods[k as int]));
            assert(c.routes[i as int].methods[k as int] == route@.methods[k as int]);
            assert(exists|m: int|
                0 <= m < c.routes[i as int].methods.len() && is_blank(
                    c.routes[i as int].methods[m],
                ));
            let msg = quoted_string("route '", route.name.as_str(), "' contains an empty HTTP method");
            assert(msg@ == quoted("route '"@, route.name@, "' contains an empty HTTP method"@));

            return Some(msg);
        }
        k = k + 1;
    }
    match validate_header_transform(
        route.name.as_str(),
        "request",
        &route.policies.request_headers,
    ) {
        Err(ConfigError::Validation(m)) => {
            return Some(m);
        },
        _ => {},
    }
    match validate_header_transform(
        route.name.as_str(),
        "response",
        &route.policies.response_headers,
    ) {
        Err(ConfigError::Validation(m)) => {
            return Some(m);
        },
        _ => {},
    }
    if let Some(limit) = route.policies.rate_limit {
        if limit.requests == 0 || limit.window_seconds == 0 {
            return Some(
                quoted_string(
                    "route '",
                    route.name.as_str(),
                    "' rate limit values must be greater than zero",
                ),
            );
        }
    }
    None
}

impl Config {
    /// Checks references and invariants that deserialization cannot enforce.
    #[verifier::loop_isolation(false)]
    pub fn validate(&self) -> (r: Result<(), ConfigError>)
        ensures
            match config_problem(self@) {
                Some(m) => r matches Err(ConfigError::Validation(s)) && s@ == m,
                None => r is Ok,
            },
    {
        if is_blank_str(self.server.listen.as_str()) {
            return Err(ConfigError::Validation(String::from_str("server.listen must not be empty")));
        }
        if is_blank_str(self.admin.listen.as_str()) {
            return Err(ConfigError::Validation(String::from_str("admin.listen must not be empty")));
        }
        if parse_listen_ip(self.admin.listen.as_str()).is_none() {
            return Err(
                ConfigError::Validation(
                    String::from_str("admin.listen must be a valid socket address"),
                ),
            );
        }
        if self.upstreams.is_empty() {
            return Err(
                ConfigError::Validation(String::from_str("at least one upstream is required")),
            );
        }
        let ghost ups = self@.upstreams;
        let mut i: usize = 0;
        proof {
            assert(ups.skip(0) =~= ups);
        }
        while i < self.upstreams.len()
            invariant
                i <= ups.len(),
                ups == self@.upstreams,
                first_upstream_problem(ups) == first_upstream_problem(ups.skip(i as int)),
            decreases ups.len() - i,
        {
            let name = self.upstreams.key_at(i);
            let upstream = self.upstreams.value_at(i);
            assert(ups.skip(i as int)[0] == ups[i as int]);
            match upstream_check(name, upstream) {
                Some(m) => {
                    return Err(ConfigError::Validation(m));
                },
                None => {},
            }
            assert(ups.skip(i as int).drop_first() =~= ups.skip(i + 1));
            i = i + 1;
        }
        assert(ups.skip(i as int).len() == 0);
        let ghost c = self@;
        let mut k: usize = 0;
        while k < self.routes.len()
            invariant
                k <= self.routes@.len(),
                c == self@,
                c.routes.len() == self.routes@.len(),
                config_problem(c) == first_route_problem(c, k as int),
            decreases self.routes@.len() - k,
        {
            assert(first_route_problem(c, k as int) == match route_problem(c, k as int) {
                Some(m) => Some(m),
                None => first_route_problem(c, k + 1),
            });
            match route_check(self, k) {
                Some(m) => {
                    return Err(ConfigError::Validation(m));
                },
                None => {},
            }
            k = k + 1;
        }
        Ok(())
    }
}

/// Validates `config` and hands it back, or the text of its first problem.
pub fn checked_config(config: Config) -> (r: Result<Config, String>)
    ensures
        match checked(config@) {
            Ok(c) => r matches Ok(x) && x@ == c,
            Err(m) => r matches Err(s) && s@ == m,
        },
{
    match config.validate() {
        Ok(()) => Ok(config),
        Err(error) => Err(error.describe()),
    }
}

} // verus!

verus! {

// ---------------------------------------------------------------------------
// What a valid configuration guarantees
// ---------------------------------------------------------------------------

proof fn lemma_no_upstream_problem(ups: Seq<(Seq<char>, UpstreamModel)>)
    requires
        first_upstream_problem(ups) is None,
    ensures
        forall|i: int| 0 <= i < ups.len() ==> upstream_problem(#[trigger] ups[i].0, ups[i].1) is None,
    decreases ups.len(),
{
    if ups.len() > 0 {
        lemma_no_upstream_problem(ups.drop_first());
        assert forall|i: int| 0 <= i < ups.len() implies upstream_problem(
            #[trigger] ups[i].0,
            ups[i].1,
        ) is None by {
            if i > 0 {
                assert(ups[i] == ups.drop_first()[i - 1]);
            }
        }
    }
}

proof fn lemma_no_route_problem(c: ConfigModel, from: int)
    requires
        0 <= from,
        first_route_problem(c, from) is None,
    ensures
        forall|i: int| from <= i < c.routes.len() ==> #[trigger] route_problem(c, i) is None,
    decreases c.routes.len() - from,
{
    if from < c.routes.len() {
        lemma_no_route_problem(c, from + 1);
    }
}

proof fn lemma_no_remove_problem(route: Seq<char>, direction: Seq<char>, names: Seq<Seq<char>>)
    requires
        first_remove_problem(route, direction, names) is None,
    ensures
        forall|i: int| 0 <= i < names.len() ==> header_name_valid(#[trigger] names[i]),
    decreases names.len(),
{
    if names.len() > 0 {
        lemma_no_remove_problem(route, direction, names.drop_first());
        assert forall|i: int| 0 <= i < names.len() implies header_name_valid(#[trigger] names[i]) by {
            if i > 0 {
                assert(names[i] == names.drop_first()[i - 1]);
            }
        }
    }
}

proof fn lemma_no_add_problem(
    route: Seq<char>,
    direction: Seq<char>,
    adds: Seq<(Seq<char>, Seq<char>)>,
)
    requires
        first_add_problem(route, direction, adds) is None,
    ensures
        forall|i: int|
            0 <= i < adds.len() ==> header_name_valid(#[trigger] adds[i].0) && header_value_valid(
                adds[i].1,
            ),
    decreases adds.len(),
{
    if adds.len() > 0 {
        lemma_no_add_problem(route, direction, adds.drop_first());
        assert forall|i: int| 0 <= i < adds.len() implies header_name_valid(#[trigger] adds[i].0)
            && header_value_valid(adds[i].1) by {
            if i > 0 {
                assert(adds[i] == adds.drop_first()[i - 1]);
            }
        }
    }
}

/// What validation guarantees of a configuration that passes it: listeners
/// are given, every upstream has endpoints, none of them blank, and a
/// positive health-check interval; route names are unique, paths start with
/// `/`, every route names a configured upstream, no method is blank, every
/// header it rewrites has a name and value that `http` accepts, and rate
/// limits are positive.
pub proof fn law_valid_config_guarantees(c: ConfigModel)
    requires
        config_valid(c),
    ensures
        !is_blank(c.server.listen),
        !is_blank(c.admin.listen),
        socket_address_syntax(c.admin.listen),
        c.upstreams.len() > 0,
        forall|i: int|
            0 <= i < c.upstreams.len() ==> {
                let u = (#[trigger] c.upstreams[i]).1;
                &&& u.endpoints.len() > 0
                &&& forall|k: int| 0 <= k < u.endpoints.len() ==> !is_blank(u.endpoints[k])
                &&& u.health_check_interval_seconds > 0
            },
        forall|i: int, j: int|
            0 <= i < j < c.routes.len() ==> (#[trigger] c.routes[i]).name != (#[trigger] c.routes[j]).name,
        forall|i: int|
            0 <= i < c.routes.len() ==> {
                let r = #[trigger] c.routes[i];
                &&& r.path.len() > 0 && r.path[0] == '/'
                &&& has_key(c.upstreams, r.upstream)
                &&& forall|m: int| 0 <= m < r.methods.len() ==> !is_blank(r.methods[m])
                &&& forall|k: int|
                    0 <= k < r.policies.request_headers.remove.len() ==> header_name_valid(
                        r.policies.request_headers.remove[k],
                    )
                &&& forall|k: int|
                    0 <= k < r.policies.request_headers.add.len() ==> header_name_valid(
                        r.policies.request_headers.add[k].0,
                    ) && header_value_valid(r.policies.request_headers.add[k].1)
                &&& forall|k: int|
                    0 <= k < r.policies.response_headers.remove.len() ==> header_name_valid(
                        r.policies.response_headers.remove[k],
                    )
                &&& forall|k: int|
                    0 <= k < r.policies.response_headers.add.len() ==> header_name_valid(
                        r.policies.response_headers.add[k].0,
                    ) && header_value_valid(r.policies.response_headers.add[k].1)
                &&& r.policies.rate_limit matches Some(l) ==> l.requests > 0 && l.window_seconds > 0
            },
{
    lemma_no_upstream_problem(c.upstreams);
    lemma_no_route_problem(c, 0);
    assert forall|i: int, j: int| 0 <= i < j < c.routes.len() implies (#[trigger] c.routes[i]).name
        != (#[trigger] c.routes[j]).name by {
        assert(route_problem(c, j) is None);
        assert(!name_seen_before(c.routes, j));
    }
    assert forall|i: int| 0 <= i < c.routes.len() implies {
        let r = #[trigger] c.routes[i];
        &&& r.path.len() > 0 && r.path[0] == '/'
        &&& has_key(c.upstreams, r.upstream)
        &&& forall|m: int| 0 <= m < r.methods.len() ==> !is_blank(r.methods[m])
        &&& forall|k: int|
            0 <= k < r.policies.request_headers.remove.len() ==> header_name_valid(
                r.policies.request_headers.remove[k],
            )
        &&& forall|k: int|
            0 <= k < r.policies.request_headers.add.len() ==> header_name_valid(
                r.policies.request_headers.add[k].0,
            ) && header_value_valid(r.policies.request_headers.add[k].1)
        &&& forall|k: int|
            0 <= k < r.policies.response_headers.remove.len() ==> header_name_valid(
                r.policies.response_headers.remove[k],
            )
        &&& forall|k: int|
            0 <= k < r.policies.response_headers.add.len() ==> header_name_valid(
                r.policies.response_headers.add[k].0,
            ) && header_value_valid(r.policies.response_headers.add[k].1)
        &&& r.policies.rate_limit matches Some(l) ==> l.requests > 0 && l.window_seconds > 0
    } by {
        let r = c.routes[i];
        assert(route_problem(c, i) is None);
        lemma_no_remove_problem(r.name, "request"@, r.policies.request_headers.remove);
        lemma_no_add_problem(r.name, "request"@, r.policies.request_headers.add);
        lemma_no_remove_problem(r.name, "response"@, r.policies.response_headers.remove);
        lemma_no_add_problem(r.name, "response"@, r.policies.response_headers.add);
    }
}

/// Every rule that validation states: listeners are given and the admin
/// listener parses; at least one upstream, each with endpoints, none blank,
/// and a positive health-check interval; route names are unique, paths
/// start with `/`, every route names a configured upstream, no method is
/// blank, every header a route rewrites has a name and value that `http`
/// accepts, and rate limits are positive.
pub open spec fn meets_validation_rules(c: ConfigModel) -> bool {
    &&& !is_blank(c.server.listen)
    &&& !is_blank(c.admin.listen)
    &&& socket_address_syntax(c.admin.listen)
    &&& c.upstreams.len() > 0
    &&& forall|i: int|
        0 <= i < c.upstreams.len() ==> {
            let u = (#[trigger] c.upstreams[i]).1;
            &&& u.endpoints.len() > 0
            &&& forall|k: int| 0 <= k < u.endpoints.len() ==> !is_blank(u.endpoints[k])
            &&& u.health_check_interval_seconds > 0
        }
    &&& forall|i: int, j: int|
        0 <= i < j < c.routes.len() ==> (#[trigger] c.routes[i]).name != (#[trigger] c.routes[j]).name
    &&& forall|i: int|
        0 <= i < c.routes.len() ==> {
            let r = #[trigger] c.routes[i];
            &&& r.path.len() > 0 && r.path[0] == '/'
            &&& has_key(c.upstreams, r.upstream)
            &&& forall|m: int| 0 <= m < r.methods.len() ==> !is_blank(r.methods[m])
            &&& forall|k: int|
                0 <= k < r.policies.request_headers.remove.len() ==> header_name_valid(
                    r.policies.request_headers.remove[k],
                )
            &&& forall|k: int|
                0 <= k < r.policies.request_headers.add.len() ==> header_name_valid(
                    r.policies.request_headers.add[k].0,
                ) && header_value_valid(r.policies.request_headers.add[k].1)
            &&& forall|k: int|
                0 <= k < r.policies.response_headers.remove.len() ==> header_name_valid(
                    r.policies.response_headers.remove[k],
                )
            &&& forall|k: int|
                0 <= k < r.policies.response_headers.add.len() ==> header_name_valid(
                    r.policies.response_headers.add[k].0,
                ) && header_value_valid(r.policies.response_headers.add[k].1)
            &&& r.policies.rate_limit matches Some(l) ==> l.requests > 0 && l.window_seconds > 0
        }
}

proof fn lemma_upstreams_without_problem(ups: Seq<(Seq<char>, UpstreamModel)>)
    requires
        forall|i: int|
            0 <= i < ups.len() ==> {
                let u = (#[trigger] ups[i]).1;
                &&& u.endpoints.len() > 0
                &&& forall|k: int| 0 <= k < u.endpoints.len() ==> !is_blank(u.endpoints[k])
                &&& u.health_check_interval_seconds > 0
            },
    ensures
        first_upstream_problem(ups) is None,
    decreases ups.len(),
{
    if ups.len() > 0 {
        let t = ups.drop_first();
        assert forall|i: int| 0 <= i < t.len() implies {
            let u = (#[trigger] t[i]).1;
            &&& u.endpoints.len() > 0
            &&& forall|k: int| 0 <= k < u.endpoints.len() ==> !is_blank(u.endpoints[k])
            &&& u.health_check_interval_seconds > 0
        } by {
            assert(t[i] == ups[i + 1]);
        }
        lemma_upstreams_without_problem(t);
        let u = ups[0].1;
        assert(!exists|k: int| 0 <= k < u.endpoints.len() && is_blank(u.endpoints[k]));
    }
}

proof fn lemma_removes_without_problem(route: Seq<char>, direction: Seq<char>, names: Seq<Seq<char>>)
    requires
        forall|k: int| 0 <= k < names.len() ==> header_name_valid(#[trigger] names[k]),
    ensures
        first_remove_problem(route, direction, names) is None,
    decreases names.len(),
{
    if names.len() > 0 {
        let t = names.drop_first();
        assert forall|k: int| 0 <= k < t.len() implies header_name_valid(#[trigger] t[k]) by {
            assert(t[k] == names[k + 1]);
        }
        lemma_removes_without_problem(route, direction, t);
    }
}

proof fn lemma_adds_without_problem(
    route: Seq<char>,
    direction: Seq<char>,
    adds: Seq<(Seq<char>, Seq<char>)>,
)
    requires
        forall|k: int|
            0 <= k < adds.len() ==> header_name_valid(#[trigger] adds[k].0) && header_value_valid(
                adds[k].1,
            ),
    ensures
        first_add_problem(route, direction, adds) is None,
    decreases adds.len(),
{
    if adds.len() > 0 {
        let t = adds.drop_first();
        assert forall|k: int| 0 <= k < t.len() implies header_name_valid(#[trigger] t[k].0)
            && header_value_valid(t[k].1) by {
            assert(t[k] == adds[k + 1]);
        }
        lemma_adds_without_problem(route, direction, t);
    }
}

proof fn lemma_routes_without_problem(c: ConfigModel, from: int)
    requires
        0 <= from,
        forall|i: int| from <= i < c.routes.len() ==> #[trigger] route_problem(c, i) is None,
    ensures
        first_route_problem(c, from) is None,
    decreases c.routes.len() - from,
{
    if from < c.routes.len() {
        lemma_routes_without_problem(c, from + 1);
    }
}

/// A configuration validates exactly when it meets every stated rule: no
/// rule is missing from the list and validation refuses nothing more.
pub proof fn law_config_valid_iff_rules(c: ConfigModel)
    ensures
        config_valid(c) <==> meets_validation_rules(c),
{
    if config_valid(c) {
        law_valid_config_guarantees(c);
    }
    if meets_validation_rules(c) {
        lemma_upstreams_without_problem(c.upstreams);
        assert forall|i: int| 0 <= i < c.routes.len() implies #[trigger] route_problem(c, i)
            is None by {
            let r = c.routes[i];
            assert(!name_seen_before(c.routes, i)) by {
                if name_seen_before(c.routes, i) {
                    let j = choose|j: int| 0 <= j < i && c.routes[j].name == c.routes[i].name;
                    assert(c.routes[j].name != c.routes[i].name);
                }
            }
            assert(!exists|m: int| 0 <= m < r.methods.len() && is_blank(r.methods[m]));
            lemma_removes_without_problem(r.name, "request"@, r.policies.request_headers.remove);
            lemma_adds_without_problem(r.name, "request"@, r.policies.request_headers.add);
            lemma_removes_without_problem(r.name, "response"@, r.policies.response_headers.remove);
            lemma_adds_without_problem(r.name, "response"@, r.policies.response_headers.add);
        }
        lemma_routes_without_problem(c, 0);
    }
}

} // verus!
