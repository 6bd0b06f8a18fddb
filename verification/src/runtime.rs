//! Runtime status shared by the data plane and the admin plane: the active
//! configuration snapshot and the health of every configured endpoint.

use std::sync::Arc;
use std::time::Instant;

use vstd::prelude::*;

use crate::config::{
    config_problem, Config, ConfigModel, RouteConfig, RouteModel, routes_view, UpstreamModel,
};
use crate::ordered::{
    has_key, inserted, lemma_inserted, lemma_sorted_keys_distinct, lookup, sorted, DeepCopy,
    MapKey, OrderedMap, PairKey, vec_deep_copy,
};
use crate::routing::{evaluation_order, sort_routes};

verus! {

// ---------------------------------------------------------------------------
// Time
// ---------------------------------------------------------------------------

#[verifier::external_type_specification]
#[verifier::external_body]
pub struct ExInstant(Instant);

/// `std::time::Instant::now`; nothing is claimed of the instant it returns.
#[verifier::external_body]
fn instant_now() -> (r: Instant) {
    Instant::now()
}

/// `Instant::elapsed`, in whole seconds; it depends on the clock, so nothing
/// is claimed of the number.
#[verifier::external_body]
fn whole_seconds_since(start: &Instant) -> (r: u64) {
    start.elapsed().as_secs()
}

/// `Arc::clone`: another handle to the same shared value.
#[verifier::external_body]
fn share<T>(a: &Arc<T>) -> (r: Arc<T>)
    ensures
        r == *a,
{
    Arc::clone(a)
}

// ---------------------------------------------------------------------------
// Reported values
// ---------------------------------------------------------------------------

pub struct SummaryModel {
    pub proxy_listen: Seq<char>,
    pub admin_listen: Seq<char>,
    pub admin_read_only: bool,
    pub route_count: usize,
    pub upstream_count: usize,
    pub endpoint_count: usize,
}

pub struct EndpointHealthModel {
    pub upstream: Seq<char>,
    pub endpoint: Seq<char>,
    pub healthy: bool,
}

#[derive(Clone, Debug, PartialEq, Eq)]
pub struct ActiveConfigSummary {
    pub proxy_listen: String,
    pub admin_listen: String,
    pub admin_read_only: bool,
    pub route_count: usize,
    pub upstream_count: usize,
    pub endpoint_count: usize,
}

#[derive(Clone, Debug, PartialEq, Eq)]
pub struct EndpointHealth {
    pub upstream: String,
    pub endpoint: String,
    pub healthy: bool,
}

#[derive(Clone, Debug, PartialEq, Eq)]
pub struct RuntimeSnapshot {
    pub uptime_seconds: u64,
    pub active_config: ActiveConfigSummary,
    pub endpoint_health: Vec<EndpointHealth>,
}

impl View for ActiveConfigSummary {
    type V = SummaryModel;

    open spec fn view(&self) -> SummaryModel {
        SummaryModel {
            proxy_listen: self.proxy_listen@,
            admin_listen: self.admin_listen@,
            admin_read_only: self.admin_read_only,
            route_count: self.route_count,
            upstream_count: self.upstream_count,
            endpoint_count: self.endpoint_count,
        }
    }
}

impl View for EndpointHealth {
    type V = EndpointHealthModel;

    open spec fn view(&self) -> EndpointHealthModel {
        EndpointHealthModel {
            upstream: self.upstream@,
            endpoint: self.endpoint@,
            healthy: self.healthy,
        }
    }
}

pub open spec fn health_list_view(v: Seq<EndpointHealth>) -> Seq<EndpointHealthModel> {
    v.map_values(|e: EndpointHealth| e@)
}

/// The health table as the report lists it: one entry per endpoint, in
/// (upstream, endpoint) order.
pub open spec fn health_report(table: Seq<((Seq<char>, Seq<char>), bool)>) -> Seq<EndpointHealthModel> {
    table.map_values(
        |e: ((Seq<char>, Seq<char>), bool)|
            EndpointHealthModel { upstream: e.0.0, endpoint: e.0.1, healthy: e.1 },
    )
}

/// Report entries strictly ascend by (upstream, endpoint), so no endpoint is
/// listed twice.
pub open spec fn health_ascending(l: Seq<EndpointHealthModel>) -> bool {
    forall|i: int, j: int|
        0 <= i < j < l.len() ==> <PairKey as MapKey>::precedes(
            (#[trigger] l[i].upstream, l[i].endpoint),
            (#[trigger] l[j].upstream, l[j].endpoint),
        )
}

/// The number of endpoints over all upstreams.
pub open spec fn endpoint_total(ups: Seq<(Seq<char>, UpstreamModel)>) -> int
    decreases ups.len(),
{
    if ups.len() == 0 {
        0
    } else {
        endpoint_total(ups.drop_last()) + ups.last().1.endpoints.len()
    }
}

/// The summary of a configuration that the runtime reports; the endpoint
/// count saturates at the largest `usize`.
pub open spec fn summary_of(c: ConfigModel) -> SummaryModel {
    SummaryModel {
        proxy_listen: c.server.listen,
        admin_listen: c.admin.listen,
        admin_read_only: c.admin.read_only,
        route_count: c.routes.len() as usize,
        upstream_count: c.upstreams.len() as usize,
        endpoint_count: if endpoint_total(c.upstreams) <= usize::MAX {
            endpoint_total(c.upstreams) as usize
        } else {
            usize::MAX
        },
    }
}

pub fn active_config_summary(config: &Config) -> (r: ActiveConfigSummary)
    ensures
        r@ == summary_of(config@),
{
    let ghost ups = config@.upstreams;
    let mut total: usize = 0;
    let mut i: usize = 0;
    proof {
        assert(ups.subrange(0, 0) =~= Seq::<(Seq<char>, UpstreamModel)>::empty());
    }
    while i < config.upstreams.len()
        invariant
            i <= ups.len(),
            ups == config@.upstreams,
            total == if endpoint_total(ups.subrange(0, i as int)) <= usize::MAX {
                endpoint_total(ups.subrange(0, i as int)) as usize
            } else {
                usize::MAX
            },
            endpoint_total(ups.subrange(0, i as int)) >= 0,
        decreases ups.len() - i,
    {
        let ghost next = ups.subrange(0, i + 1);
        assert(next.drop_last() =~= ups.subrange(0, i as int));
        assert(next.last() == ups[i as int]);
        let n = config.upstreams.value_at(i).endpoints.len();
        total = total.saturating_add(n);
        i = i + 1;
    }
    assert(ups.subrange(0, ups.len() as int) =~= ups);
    assert(config@.routes.len() == config.routes@.len());
    ActiveConfigSummary {
        proxy_listen: config.server.listen.clone(),
        admin_listen: config.admin.listen.clone(),
        admin_read_only: config.admin.read_only,
        route_count: config.routes.len(),
        upstream_count: config.upstreams.len(),
        endpoint_count: total,
    }
}

// ---------------------------------------------------------------------------
// Errors
// ---------------------------------------------------------------------------

#[derive(Debug, Clone, PartialEq, Eq)]
pub enum RuntimeConfigApplyError {
    InvalidConfig(String),
    StructuralChange,
}

impl RuntimeConfigApplyError {
    /// The human-readable description of the error.
    pub fn describe(&self) -> (r: String)
        ensures
            r@ == match self {
                RuntimeConfigApplyError::InvalidConfig(m) => "candidate runtime config is invalid: "@
                    + m@,
                RuntimeConfigApplyError::StructuralChange =>
                    "runtime route reload does not support server, admin, or upstream changes"@,
            },
    {
        match self {
            RuntimeConfigApplyError::InvalidConfig(m) => {
                let mut r = String::from_str("candidate runtime config is invalid: ");
                r.append(m.as_str());
                r
            },
            RuntimeConfigApplyError::StructuralChange => String::from_str(
                "runtime route reload does not support server, admin, or upstream changes",
            ),
        }
    }
}

// ---------------------------------------------------------------------------
// Configuration snapshots
// ---------------------------------------------------------------------------

/// Immutable handle to the configuration currently owned by the runtime.
///
/// Cloning this value is cheap and keeps the underlying configuration alive
/// while a newer snapshot is installed for subsequent requests.
#[derive(Clone, Debug)]
pub struct RuntimeConfigSnapshot {
    config: Arc<Config>,
    routes: Arc<Vec<RouteConfig>>,
}

impl RuntimeConfigSnapshot {
    /// The configuration of the snapshot.
    pub closed spec fn config_view(&self) -> ConfigModel {
        (*self.config)@
    }

    /// The routes of the snapshot, in evaluation order.
    pub closed spec fn routes_view(&self) -> Seq<RouteModel> {
        routes_view((*self.routes)@)
    }

    pub fn from_config(config: &Config) -> (r: Self)
        ensures
            r.config_view() == config@,
            r.routes_view() == evaluation_order(config@.routes),
    {
        let mut routes = vec_deep_copy(&config.routes);
        proof {
            assert(routes_view(routes@) == config@.routes);
        }
        sort_routes(&mut routes);
        RuntimeConfigSnapshot { config: Arc::new(config.deep_copy()), routes: Arc::new(routes) }
    }

    pub fn config(&self) -> (r: &Config)
        ensures
            r@ == self.config_view(),
    {
        &*self.config
    }

    /// Returns the immutable route table in proxy evaluation order.
    pub fn routes(&self) -> (r: &[RouteConfig])
        ensures
            routes_view(r@) == self.routes_view(),
    {
        self.routes.as_slice()
    }

    /// Another handle to the same snapshot.
    pub fn share(&self) -> (r: Self)
        ensures
            r.config_view() == self.config_view(),
            r.routes_view() == self.routes_view(),
    {
        RuntimeConfigSnapshot { config: share(&self.config), routes: share(&self.routes) }
    }
}

// ---------------------------------------------------------------------------
// Runtime status
// ---------------------------------------------------------------------------

/// `(upstream, endpoint)` is one of the endpoints that `ups` lists.
pub open spec fn configured_endpoint(
    ups: Seq<(Seq<char>, UpstreamModel)>,
    k: (Seq<char>, Seq<char>),
) -> bool {
    exists|i: int, j: int|
        0 <= i < ups.len() && 0 <= j < ups[i].1.endpoints.len() && ups[i].0 == k.0
            && #[trigger] ups[i].1.endpoints[j] == k.1
}

/// Listener, admin or upstream settings differ between two configurations.
pub open spec fn structural_change(current: ConfigModel, candidate: ConfigModel) -> bool {
    current.server != candidate.server || current.admin != candidate.admin || current.upstreams
        != candidate.upstreams
}

/// Shared runtime state written by the data plane and read by control-plane adapters.
pub struct RuntimeStatus {
    started_at: Instant,
    config: RuntimeConfigSnapshot,
    endpoint_health: OrderedMap<PairKey, bool>,
}

impl RuntimeStatus {
    /// The active configuration.
    pub closed spec fn active(&self) -> ConfigModel {
        self.config.config_view()
    }

    /// The active routes in evaluation order.
    pub closed spec fn active_routes(&self) -> Seq<RouteModel> {
        self.config.routes_view()
    }

    /// Health by (upstream, endpoint), in key order.
    pub closed spec fn health(&self) -> Seq<((Seq<char>, Seq<char>), bool)> {
        self.endpoint_health@
    }

    /// Starts with `config` active and every configured endpoint healthy.
    pub fn from_config(config: &Config) -> (r: Self)
        ensures
            r.active() == config@,
            r.active_routes() == evaluation_order(config@.routes),
            sorted::<PairKey, bool>(r.health()),
            forall|k: (Seq<char>, Seq<char>)|
                #[trigger] lookup(r.health(), k) == if configured_endpoint(config@.upstreams, k) {
                    Some(true)
                } else {
                    None
                },
    {
        let ghost ups = config@.upstreams;
        let mut health: OrderedMap<PairKey, bool> = OrderedMap::new();
        let mut i: usize = 0;
        while i < config.upstreams.len()
            invariant
                i <= ups.len(),
                ups == config@.upstreams,
                sorted::<PairKey, bool>(health@),
                forall|k: (Seq<char>, Seq<char>)|
                    #[trigger] lookup(health@, k) == if exists|a: int, b: int|
                        0 <= a < i && 0 <= b < ups[a].1.endpoints.len() && ups[a].0 == k.0
                            && #[trigger] ups[a].1.endpoints[b] == k.1 {
                        Some(true)
                    } else {
                        None
                    },
            decreases ups.len() - i,
        {
            let name = config.upstreams.key_at(i);
            let upstream = config.upstreams.value_at(i);
            let mut j: usize = 0;
            while j < upstream.endpoints.len()
                invariant
                    i < ups.len(),
                    j <= ups[i as int].1.endpoints.len(),
                    ups == config@.upstreams,
                    name@ == ups[i as int].0,
                    upstream@ == ups[i as int].1,
                    sorted::<PairKey, bool>(health@),
                    forall|k: (Seq<char>, Seq<char>)|
                        #[trigger] lookup(health@, k) == if (exists|a: int, b: int|
                            0 <= a < i && 0 <= b < ups[a].1.endpoints.len() && ups[a].0 == k.0
                                && #[trigger] ups[a].1.endpoints[b] == k.1) || (exists|b: int|
                            0 <= b < j && ups[i as int].0 == k.0 && #[trigger] ups[
                                i as int
                            ].1.endpoints[b] == k.1) {
                            Some(true)
                        } else {
                            None
                        },
                decreases upstream.endpoints@.len() - j,
            {
                let key = PairKey { first: name.clone(), second: upstream.endpoints[j].clone() };
                let ghost kv = key@;
                let ghost before = health@;
                assert(kv.1 == ups[i as int].1.endpoints[j as int]);
                health.insert(key, true);
                proof {
                    lemma_inserted::<PairKey, bool>(before, kv, true);
                    assert forall|k: (Seq<char>, Seq<char>)| #[trigger] lookup(health@, k) == if (exists|a: int, b: int|
                        0 <= a < i && 0 <= b < ups[a].1.endpoints.len() && ups[a].0 == k.0
                            && #[trigger] ups[a].1.endpoints[b] == k.1) || (exists|b: int|
                        0 <= b < j + 1 && ups[i as int].0 == k.0 && #[trigger] ups[
                            i as int
                        ].1.endpoints[b] == k.1) {
                        Some(true)
                    } else {
                        None
                    } by {
                        if k == kv {
                            assert(0 <= j < j + 1 && ups[i as int].0 == k.0 && ups[
                                i as int
                            ].1.endpoints[j as int] == k.1);
                        } else {
                            assert(lookup(health@, k) == lookup(before, k));
                            if exists|b: int|
                                0 <= b < j + 1 && ups[i as int].0 == k.0 && #[trigger] ups[
                                    i as int
                                ].1.endpoints[b] == k.1 {
                                let b = choose|b: int|
                                    0 <= b < j + 1 && ups[i as int].0 == k.0 && #[trigger] ups[
                                        i as int
                                    ].1.endpoints[b] == k.1;
                                if b == j {
                                    assert(k == kv);
                                }
                            }
                        }
                    }
                }
                j = j + 1;
            }
            proof {
                assert forall|k: (Seq<char>, Seq<char>)| #[trigger] lookup(health@, k) == if exists|a: int, b: int|
                    0 <= a < i + 1 && 0 <= b < ups[a].1.endpoints.len() && ups[a].0 == k.0
                        && #[trigger] ups[a].1.endpoints[b] == k.1 {
                    Some(true)
                } else {
                    None
                } by {
                    if exists|a: int, b: int|
                        0 <= a < i + 1 && 0 <= b < ups[a].1.endpoints.len() && ups[a].0 == k.0
                            && #[trigger] ups[a].1.endpoints[b] == k.1 {
                        let (a, b) = choose|a: int, b: int|
                            0 <= a < i + 1 && 0 <= b < ups[a].1.endpoints.len() && ups[a].0
                                == k.0 && #[trigger] ups[a].1.endpoints[b] == k.1;
                        if a == i {
                            assert(0 <= b < j && ups[i as int].0 == k.0 && ups[i as int].1.endpoints[b] == k.1);
                        } else {
                            assert(0 <= a < i && 0 <= b < ups[a].1.endpoints.len() && ups[a].0 == k.0 && ups[a].1.endpoints[b] == k.1);
                        }
                    }
                }
            }
            i = i + 1;
        }
        RuntimeStatus {
            started_at: instant_now(),
            config: RuntimeConfigSnapshot::from_config(config),
            endpoint_health: health,
        }
    }

    /// Records the health of one endpoint.
    pub fn set_endpoint_health(&mut self, upstream: &str, endpoint: &str, healthy: bool)
        ensures
            final(self).health() == inserted::<PairKey, bool>(
                old(self).health(),
                (upstream@, endpoint@),
                healthy,
            ),
            lookup(final(self).health(), (upstream@, endpoint@)) == Some(healthy),
            forall|k: (Seq<char>, Seq<char>)|
                k != (upstream@, endpoint@) ==> #[trigger] lookup(final(self).health(), k) == lookup(
                    old(self).health(),
                    k,
                ),
            sorted::<PairKey, bool>(final(self).health()),
            has_key(final(self).health(), (upstream@, endpoint@)),
            forall|i: int, j: int|
                0 <= i < final(self).health().len() && 0 <= j < final(self).health().len()
                    && #[trigger] final(self).health()[i].0 == (upstream@, endpoint@)
                    && #[trigger] final(self).health()[j].0 == (upstream@, endpoint@) ==> i == j
                    && final(self).health()[i].1 == healthy,
            final(self).active() == old(self).active(),
            final(self).active_routes() == old(self).active_routes(),
    {
        let key = PairKey { first: upstream.to_owned(), second: endpoint.to_owned() };
        proof {
            use_type_invariant(&self.endpoint_health);
        }
        self.endpoint_health.insert(key, healthy);
        proof {
            use_type_invariant(&self.endpoint_health);
            let h = self.endpoint_health@;
            lemma_sorted_keys_distinct::<PairKey, bool>(h);
            assert forall|i: int, j: int|
                0 <= i < h.len() && 0 <= j < h.len() && #[trigger] h[i].0 == (upstream@, endpoint@)
                    && #[trigger] h[j].0 == (upstream@, endpoint@) implies i == j && h[i].1
                == healthy by {
                crate::ordered::lemma_sorted_lookup::<PairKey, bool>(h, i);
            }
        }
    }

    /// Replaces route matching and route policy configuration for subsequent requests.
    ///
    /// Listener and upstream changes remain restart-required because services,
    /// load balancers, and health-check workers are built during process startup.
    pub fn apply_route_config(&mut self, candidate: &Config) -> (r: Result<(), RuntimeConfigApplyError>)
        ensures
            match config_problem(candidate@) {
                Some(m) => r matches Err(RuntimeConfigApplyError::InvalidConfig(s)) && s@
                    == "invalid configuration: "@ + m,
                None => if structural_change(old(self).active(), candidate@) {
                    r == Err::<(), RuntimeConfigApplyError>(RuntimeConfigApplyError::StructuralChange)
                } else {
                    r is Ok
                },
            },
            r is Ok ==> final(self).active() == candidate@ && final(self).active_routes()
                == evaluation_order(candidate@.routes),
            r is Err ==> final(self).active() == old(self).active() && final(self).active_routes()
                == old(self).active_routes(),
            final(self).health() == old(self).health(),
    {
        match candidate.validate() {
            Err(error) => {
                return Err(RuntimeConfigApplyError::InvalidConfig(error.describe()));
            },
            Ok(()) => {},
        }
        let current = self.config.config();
        if !candidate.server.deep_eq(&current.server) || !candidate.admin.deep_eq(&current.admin)
            || !candidate.upstreams.deep_eq(&current.upstreams) {
            return Err(RuntimeConfigApplyError::StructuralChange);
        }
        self.config = RuntimeConfigSnapshot::from_config(candidate);
        Ok(())
    }

    /// Returns a cheap immutable handle to the currently active runtime configuration.
    pub fn config_snapshot(&self) -> (r: RuntimeConfigSnapshot)
        ensures
            r.config_view() == self.active(),
            r.routes_view() == self.active_routes(),
    {
        self.config.share()
    }

    /// Returns the currently active configuration snapshot as an owned value.
    pub fn config(&self) -> (r: Config)
        ensures
            r@ == self.active(),
    {
        self.config.config().deep_copy()
    }

    /// Returns the currently active route configuration snapshot in proxy evaluation order.
    pub fn routes(&self) -> (r: Vec<RouteConfig>)
        ensures
            routes_view(r@) == self.active_routes(),
    {
        let routes = self.config.routes();
        let mut r: Vec<RouteConfig> = Vec::new();
        let mut i: usize = 0;
        while i < routes.len()
            invariant
                i <= routes@.len(),
                r@.len() == i,
                forall|j: int| 0 <= j < i ==> #[trigger] r@[j]@ == routes@[j]@,
            decreases routes@.len() - i,
        {
            r.push(routes[i].deep_copy());
            i = i + 1;
        }
        assert(routes_view(r@) =~= routes_view(routes@));
        r
    }

    /// The runtime report, with the uptime read from the clock.
    pub fn snapshot(&self) -> (r: RuntimeSnapshot)
        ensures
            r.active_config@ == summary_of(self.active()),
            health_list_view(r.endpoint_health@) == health_report(self.health()),
            health_ascending(health_list_view(r.endpoint_health@)),
    {
        self.snapshot_at(whole_seconds_since(&self.started_at))
    }

    /// The runtime report for a given uptime.
    pub fn snapshot_at(&self, uptime_seconds: u64) -> (r: RuntimeSnapshot)
        ensures
            r.uptime_seconds == uptime_seconds,
            r.active_config@ == summary_of(self.active()),
            health_list_view(r.endpoint_health@) == health_report(self.health()),
            health_ascending(health_list_view(r.endpoint_health@)),
    {
        proof {
            use_type_invariant(&self.endpoint_health);
        }
        let mut list: Vec<EndpointHealth> = Vec::new();
        let mut i: usize = 0;
        let ghost table = self.health();
        while i < self.endpoint_health.len()
            invariant
                i <= table.len(),
                table == self.endpoint_health@,
                list@.len() == i,
                forall|j: int| 0 <= j < i ==> #[trigger] list@[j]@ == health_report(table)[j],
            decreases table.len() - i,
        {
            let key = self.endpoint_health.key_at(i);
            let healthy = *self.endpoint_health.value_at(i);
            list.push(
                EndpointHealth {
                    upstream: key.first.clone(),
                    endpoint: key.second.clone(),
                    healthy,
                },
            );
            i = i + 1;
        }
        assert(health_list_view(list@) =~= health_report(table));
        assert(sorted::<PairKey, bool>(table));
        RuntimeSnapshot {
            uptime_seconds,
            active_config: active_config_summary(self.config.config()),
            endpoint_health: list,
        }
    }
}

} // verus!
