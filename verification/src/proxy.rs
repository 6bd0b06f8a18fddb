//! The data plane's decisions: which requests are answered at once, which
//! are forwarded and along which route, the per-route rate limit window,
//! and when a failed connection is retried.

use vstd::prelude::*;

use crate::config::{Config, HeaderTransform, HeaderTransformModel, RateLimitConfig, RouteConfig};
use crate::ordered::lookup;
use crate::routing::{first_matching_index, opt_str_view};
use crate::text::{decimal, decimal_string, parse_usize, parsed_usize, str_eq};
use crate::PROJECT_NAME;

verus! {

/// The banner logged when the proxy starts.
pub fn runtime_banner() -> (r: String)
    ensures
        r@ == PROJECT_NAME@ + " proxy"@,
{
    let mut r = String::from_str(PROJECT_NAME);
    r.append(" proxy");
    r
}

/// The identifier of the request with this sequence number.
pub fn request_id(sequence: u64) -> (r: String)
    ensures
        r@ == "ly-"@ + decimal(sequence as nat),
{
    let mut r = String::from_str("ly-");
    r.append(decimal_string(sequence).as_str());
    r
}

// ---------------------------------------------------------------------------
// Rate limit windows
// ---------------------------------------------------------------------------

/// One decision of a fixed rate limit window.
#[derive(Debug, Clone, Copy, PartialEq, Eq, Structural)]
pub struct WindowStep {
    /// The request may pass.
    pub allowed: bool,
    /// The window starts again now.
    pub restart: bool,
    /// The requests counted in the window afterwards.
    pub count: u64,
}

/// Nanoseconds in a second.
pub const NANOS_PER_SECOND: u128 = 1_000_000_000;

/// The time from `start` to `now`, both read from one monotonic clock in
/// nanoseconds, and zero when `now` is earlier, as `Instant::duration_since`
/// measures it.
pub open spec fn elapsed_nanos(start: u128, now: u128) -> u128 {
    if now >= start {
        (now - start) as u128
    } else {
        0
    }
}

/// A window restarts once it has lasted `window_seconds`; a request passes
/// while fewer than `requests` were counted in the current window.
pub open spec fn window_decision(count: u64, elapsed: u128, limit: RateLimitConfig) -> WindowStep {
    let restart = elapsed >= limit.window_seconds * NANOS_PER_SECOND;
    let current = if restart {
        0
    } else {
        count
    };
    if current >= limit.requests {
        WindowStep { allowed: false, restart, count: current }
    } else {
        WindowStep { allowed: true, restart, count: (current + 1) as u64 }
    }
}

/// Decides a request against a window that has counted `count` requests
/// and began `elapsed` nanoseconds ago.
pub fn window_step(count: u64, elapsed: u128, limit: &RateLimitConfig) -> (r: WindowStep)
    ensures
        r == window_decision(count, elapsed, *limit),
{
    let seconds = limit.window_seconds as u128;
    assert(seconds * NANOS_PER_SECOND <= u128::MAX) by (nonlinear_arith)
        requires
            seconds <= u64::MAX,
    ;
    let restart = elapsed >= seconds * NANOS_PER_SECOND;
    let current = if restart {
        0
    } else {
        count
    };
    if current >= limit.requests {
        WindowStep { allowed: false, restart, count: current }
    } else {
        WindowStep { allowed: true, restart, count: current + 1 }
    }
}

/// The rate limit window of one route: when it began, in nanoseconds of a
/// monotonic clock, and the requests counted in it.
#[derive(Debug, Clone, Copy, PartialEq, Eq, Structural)]
pub struct RateWindow {
    pub started: u128,
    pub count: u64,
}

impl RateWindow {
    /// A window that begins at `now` with nothing counted.
    pub fn new(now: u128) -> (r: Self)
        ensures
            r.count == 0,
            r.started == now,
    {
        RateWindow { started: now, count: 0 }
    }

    /// Decides a request arriving at `now`, read from the clock that the
    /// window's start was read from: the window restarts once
    /// `window_seconds` have passed since it began, and the request passes
    /// while the window has room.
    pub fn allow(&mut self, limit: &RateLimitConfig, now: u128) -> (r: bool)
        ensures
            ({
                let step = window_decision(
                    old(self).count,
                    elapsed_nanos(old(self).started, now),
                    *limit,
                );
                &&& r == step.allowed
                &&& final(self).count == step.count
                &&& final(self).started == if step.restart {
                    now
                } else {
                    old(self).started
                }
            }),
    {
        let elapsed = if now >= self.started {
            now - self.started
        } else {
            0
        };
        let step = window_step(self.count, elapsed, limit);
        if step.restart {
            self.started = now;
        }
        self.count = step.count;
        step.allowed
    }
}

// ---------------------------------------------------------------------------
// Request filtering
// ---------------------------------------------------------------------------

/// What the proxy does with a request before it picks an endpoint.
#[derive(Debug, Clone, PartialEq, Eq)]
pub enum FilterDecision {
    /// Answer with this status and body.
    Respond { status: u16, body: String },
    /// Forward along the route at this position of the evaluation order.
    Forward { route_index: usize },
}

/// A declared request body is over the route's limit: the `content-length`
/// value reads as a `usize` above it.
pub open spec fn body_over_limit(limit: Option<usize>, content_length: Option<Seq<char>>) -> bool {
    match (limit, content_length) {
        (Some(l), Some(text)) => match parsed_usize(text) {
            Some(n) => n > l,
            None => false,
        },
        _ => false,
    }
}

pub open spec fn first_match(
    routes: Seq<RouteConfig>,
    i: int,
    host: Option<Seq<char>>,
    path: Seq<char>,
    method: Seq<char>,
) -> bool {
    &&& 0 <= i < routes.len()
    &&& crate::routing::matches(routes[i]@, host, path, method)
    &&& forall|j: int| 0 <= j < i ==> !crate::routing::matches(#[trigger] routes[j]@, host, path, method)
}

fn body_too_large(limit: Option<usize>, content_length: Option<&str>) -> (r: bool)
    ensures
        r == body_over_limit(limit, opt_str_view(content_length)),
{
    match (limit, content_length) {
        (Some(l), Some(text)) => match parse_usize(text) {
            Some(n) => n > l,
            None => false,
        },
        _ => false,
    }
}

fn respond(status: u16, body: &str) -> (r: FilterDecision)
    ensures
        r matches FilterDecision::Respond { status: s, body: b } && s == status && b@ == body@,
{
    FilterDecision::Respond { status, body: String::from_str(body) }
}

/// Decides a request from its path, host, method and declared length, over
/// routes kept in evaluation order: the health probe is answered, a request
/// that no route matches gets 404, one whose declared body is over the
/// first matching route's limit gets 413, and the rest go on to the rate
/// limit of that route.
pub fn route_filter(
    routes: &Vec<RouteConfig>,
    host: Option<&str>,
    path: &str,
    method: &str,
    content_length: Option<&str>,
) -> (r: FilterDecision)
    ensures
        path@ == "/health"@ ==> (r matches FilterDecision::Respond { status, body } && status
            == 200 && body@ == "ok\n"@),
        path@ != "/health"@ ==> match r {
            FilterDecision::Respond { status, body } => (status == 404 && body@
                == "route not found\n"@ && forall|j: int|
                0 <= j < routes@.len() ==> !crate::routing::matches(
                    #[trigger] routes@[j]@,
                    opt_str_view(host),
                    path@,
                    method@,
                )) || (status == 413 && body@ == "request body too large\n"@ && exists|i: int|
                first_match(routes@, i, opt_str_view(host), path@, method@) && body_over_limit(
                    routes@[i].policies.max_request_body_bytes,
                    opt_str_view(content_length),
                )),
            FilterDecision::Forward { route_index } => first_match(
                routes@,
                route_index as int,
                opt_str_view(host),
                path@,
                method@,
            ) && !body_over_limit(
                routes@[route_index as int].policies.max_request_body_bytes,
                opt_str_view(content_length),
            ),
        },
{
    if str_eq(path, "/health") {
        return respond(200, "ok\n");
    }
    match first_matching_index(routes, host, path, method) {
        None => respond(404, "route not found\n"),
        Some(i) => {
            if body_too_large(routes[i].policies.max_request_body_bytes, content_length) {
                assert(first_match(routes@, i as int, opt_str_view(host), path@, method@));
                respond(413, "request body too large\n")
            } else {
                FilterDecision::Forward { route_index: i }
            }
        },
    }
}

/// The decision once the route's rate limit has spoken.
pub fn after_rate_limit(route_index: usize, allowed: bool) -> (r: FilterDecision)
    ensures
        allowed ==> (r == (FilterDecision::Forward { route_index })),
        !allowed ==> (r matches FilterDecision::Respond { status, body } && status == 429 && body@
            == "rate limit exceeded\n"@),
{
    if allowed {
        FilterDecision::Forward { route_index }
    } else {
        respond(429, "rate limit exceeded\n")
    }
}

/// Whether a connection that failed may be tried again: while fewer
/// attempts failed than the route's upstream has endpoints.
pub fn can_retry_connect(config: &Config, route: &RouteConfig, connect_failures: usize) -> (r: bool)
    ensures
        r == match lookup(config@.upstreams, route@.upstream) {
            Some(u) => connect_failures < u.endpoints.len(),
            None => false,
        },
{
    match config.upstreams.get(&route.upstream) {
        Some(upstream) => connect_failures < upstream.endpoints.len(),
        None => false,
    }
}

} // verus!

verus! {

/// A window never counts more requests than its limit, a request passes
/// only while the window has room, and a passing request is counted once.
pub proof fn law_window_respects_limit(count: u64, elapsed: u128, limit: RateLimitConfig)
    requires
        count <= limit.requests,
    ensures
        ({
            let step = window_decision(count, elapsed, limit);
            let current = if step.restart {
                0
            } else {
                count
            };
            &&& step.count <= limit.requests
            &&& step.allowed <==> current < limit.requests
            &&& step.allowed ==> step.count == current + 1
            &&& !step.allowed ==> step.count == current
            &&& step.restart <==> elapsed >= limit.window_seconds * NANOS_PER_SECOND
        }),
{
}

} // verus!

verus! {

// ---------------------------------------------------------------------------
// Header rewriting
// ---------------------------------------------------------------------------

/// One change to a header map.
#[derive(Debug, Clone, PartialEq, Eq)]
pub enum HeaderOp {
    Remove(String),
    Insert(String, String),
}

pub enum HeaderOpModel {
    Remove(Seq<char>),
    Insert(Seq<char>, Seq<char>),
}

impl View for HeaderOp {
    type V = HeaderOpModel;

    open spec fn view(&self) -> HeaderOpModel {
        match self {
            HeaderOp::Remove(n) => HeaderOpModel::Remove(n@),
            HeaderOp::Insert(n, v) => HeaderOpModel::Insert(n@, v@),
        }
    }
}

pub open spec fn ops_view(ops: Seq<HeaderOp>) -> Seq<HeaderOpModel> {
    ops.map_values(|o: HeaderOp| o@)
}

/// Removing each of the names, in order.
pub open spec fn removal_ops(names: Seq<Seq<char>>) -> Seq<HeaderOpModel> {
    Seq::new(names.len(), |k: int| HeaderOpModel::Remove(names[k]))
}

/// Setting each of the headers, in order.
pub open spec fn insertion_ops(add: Seq<(Seq<char>, Seq<char>)>) -> Seq<HeaderOpModel> {
    Seq::new(add.len(), |k: int| HeaderOpModel::Insert(add[k].0, add[k].1))
}

/// A transform's changes in the order they apply: every removal, then
/// every addition in name order, an addition replacing what was there.
pub open spec fn transform_ops(t: HeaderTransformModel) -> Seq<HeaderOpModel> {
    removal_ops(t.remove) + insertion_ops(t.add)
}

/// A transform's changes are one removal for each name it removes, in the
/// order the names are listed, followed by one insertion for each header it
/// adds, in name order; nothing else.
pub proof fn law_every_removal_then_every_addition(t: HeaderTransformModel)
    ensures
        transform_ops(t).len() == t.remove.len() + t.add.len(),
        forall|k: int|
            0 <= k < t.remove.len() ==> #[trigger] transform_ops(t)[k] == HeaderOpModel::Remove(
                t.remove[k],
            ),
        forall|k: int|
            0 <= k < t.add.len() ==> #[trigger] transform_ops(t)[t.remove.len() + k]
                == HeaderOpModel::Insert(t.add[k].0, t.add[k].1),
{
}

/// The changes that a header transform makes, in the order they apply.
pub fn header_operations(transform: &HeaderTransform) -> (r: Vec<HeaderOp>)
    ensures
        ops_view(r@) == transform_ops(transform@),
{
    let ghost model = transform@;
    let mut ops: Vec<HeaderOp> = Vec::new();
    let mut i: usize = 0;
    proof {
        assert(ops_view(ops@) =~= removal_ops(model.remove.take(0)));
    }
    while i < transform.remove.len()
        invariant
            i <= transform.remove@.len(),
            model == transform@,
            ops_view(ops@) == removal_ops(model.remove.take(i as int)),
        decreases transform.remove@.len() - i,
    {
        let ghost prev = ops_view(ops@);
        ops.push(HeaderOp::Remove(transform.remove[i].clone()));
        proof {
            assert(ops_view(ops@) =~= prev.push(HeaderOpModel::Remove(model.remove[i as int])));
            assert(removal_ops(model.remove.take(i + 1)) =~= prev.push(
                HeaderOpModel::Remove(model.remove[i as int]),
            ));
        }
        i = i + 1;
    }
    proof {
        assert(model.remove.take(transform.remove@.len() as int) =~= model.remove);
    }
    let ghost removed = ops_view(ops@);
    let mut j: usize = 0;
    proof {
        assert(ops_view(ops@) =~= removed + insertion_ops(model.add.take(0)));
    }
    while j < transform.add.len()
        invariant
            j <= model.add.len(),
            model == transform@,
            removed == removal_ops(model.remove),
            ops_view(ops@) == removed + insertion_ops(model.add.take(j as int)),
        decreases model.add.len() - j,
    {
        let ghost prev = ops_view(ops@);
        ops.push(
            HeaderOp::Insert(transform.add.key_at(j).clone(), transform.add.value_at(j).clone()),
        );
        proof {
            let added = HeaderOpModel::Insert(model.add[j as int].0, model.add[j as int].1);
            assert(ops_view(ops@) =~= prev.push(added));
            assert(removed + insertion_ops(model.add.take(j + 1)) =~= prev.push(added));
        }
        j = j + 1;
    }
    proof {
        assert(model.add.take(model.add.len() as int) =~= model.add);
    }
    ops
}

/// The changes to a request before it goes upstream: the route's request
/// transform, then the request id and the route's name.
pub fn upstream_request_operations(route: &RouteConfig, request_id: &str) -> (r: Vec<HeaderOp>)
    ensures
        ops_view(r@) == transform_ops(route@.policies.request_headers) + seq![
            HeaderOpModel::Insert("x-request-id"@, request_id@),
            HeaderOpModel::Insert("x-lungyam-route"@, route@.name),
        ],
{
    let mut ops = header_operations(&route.policies.request_headers);
    let ghost before = ops_view(ops@);
    ops.push(HeaderOp::Insert(String::from_str("x-request-id"), String::from_str(request_id)));
    ops.push(HeaderOp::Insert(String::from_str("x-lungyam-route"), route.name.clone()));
    proof {
        assert(ops_view(ops@) =~= before + seq![
            HeaderOpModel::Insert("x-request-id"@, request_id@),
            HeaderOpModel::Insert("x-lungyam-route"@, route@.name),
        ]);
    }
    ops
}

/// The changes to a response before it goes back: the route's response
/// transform, then the request id, and no `alt-svc` advertisement.
pub fn response_operations(route: &RouteConfig, request_id: &str) -> (r: Vec<HeaderOp>)
    ensures
        ops_view(r@) == transform_ops(route@.policies.response_headers) + seq![
            HeaderOpModel::Insert("x-request-id"@, request_id@),
            HeaderOpModel::Remove("alt-svc"@),
        ],
{
    let mut ops = header_operations(&route.policies.response_headers);
    let ghost before = ops_view(ops@);
    ops.push(HeaderOp::Insert(String::from_str("x-request-id"), String::from_str(request_id)));
    ops.push(HeaderOp::Remove(String::from_str("alt-svc")));
    proof {
        assert(ops_view(ops@) =~= before + seq![
            HeaderOpModel::Insert("x-request-id"@, request_id@),
            HeaderOpModel::Remove("alt-svc"@),
        ]);
    }
    ops
}

} // verus!
