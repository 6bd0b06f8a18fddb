//! What the admin pages show: the values that the templates lay out.

use vstd::prelude::*;

use crate::admin::mutation::{revision_label_string, revision_label_text};
use crate::admin::security::CsrfToken;
use crate::config::{opt_string_view, strings_view, Config, UpstreamConfig, UpstreamModel};
use crate::config_diff::{diff_is_empty, needs_restart, ConfigDiff, DiffModel};
use crate::revision::RevisionMetadata;
use crate::revision_state::RevisionState;
use crate::runtime::{active_config_summary, summary_of, EndpointHealth, EndpointHealthModel};
use crate::text::{decimal, decimal_string, join, joined, str_eq};

verus! {

// ---------------------------------------------------------------------------
// Dashboard
// ---------------------------------------------------------------------------

/// Uptime in the largest units that apply: `1h 1m 8s`, `1m 8s` or `8s`.
pub open spec fn uptime_text(seconds: nat) -> Seq<char> {
    let hours = seconds / 3600;
    let minutes = (seconds % 3600) / 60;
    let secs = seconds % 60;
    if hours > 0 {
        decimal(hours) + "h "@ + decimal(minutes) + "m "@ + decimal(secs) + "s"@
    } else if minutes > 0 {
        decimal(minutes) + "m "@ + decimal(secs) + "s"@
    } else {
        decimal(secs) + "s"@
    }
}

pub fn format_uptime(seconds: u64) -> (r: String)
    ensures
        r@ == uptime_text(seconds as nat),
{
    let hours = seconds / 3600;
    let minutes = (seconds % 3600) / 60;
    let secs = seconds % 60;
    let mut r = String::new();
    if hours > 0 {
        r.append(decimal_string(hours).as_str());
        r.append("h ");
        r.append(decimal_string(minutes).as_str());
        r.append("m ");
    } else if minutes > 0 {
        r.append(decimal_string(minutes).as_str());
        r.append("m ");
    }
    r.append(decimal_string(secs).as_str());
    r.append("s");
    r
}

/// The words a health state is shown with, and its style class.
pub open spec fn health_words(healthy: bool) -> (Seq<char>, Seq<char>) {
    if healthy {
        ("Healthy"@, "health-healthy"@)
    } else {
        ("Unhealthy"@, "health-unhealthy"@)
    }
}

/// One row of the dashboard's endpoint health table.
#[derive(Debug, Clone, PartialEq, Eq)]
pub struct EndpointHealthView {
    pub upstream: String,
    pub endpoint: String,
    pub status: String,
    pub status_class: String,
}

fn health_status(healthy: bool) -> (r: (String, String))
    ensures
        r.0@ == health_words(healthy).0,
        r.1@ == health_words(healthy).1,
{
    if healthy {
        (String::from_str("Healthy"), String::from_str("health-healthy"))
    } else {
        (String::from_str("Unhealthy"), String::from_str("health-unhealthy"))
    }
}

/// The rows of the endpoint health table, in the order given.
pub fn health_views(endpoints: Vec<EndpointHealth>) -> (r: Vec<EndpointHealthView>)
    ensures
        r@.len() == endpoints@.len(),
        forall|i: int|
            0 <= i < r@.len() ==> {
                &&& (#[trigger] r@[i]).upstream@ == endpoints@[i].upstream@
                &&& r@[i].endpoint@ == endpoints@[i].endpoint@
                &&& r@[i].status@ == health_words(endpoints@[i].healthy).0
                &&& r@[i].status_class@ == health_words(endpoints@[i].healthy).1
            },
{
    let mut r: Vec<EndpointHealthView> = Vec::new();
    let mut i: usize = 0;
    while i < endpoints.len()
        invariant
            i <= endpoints@.len(),
            r@.len() == i,
            forall|k: int|
                0 <= k < i ==> {
                    &&& (#[trigger] r@[k]).upstream@ == endpoints@[k].upstream@
                    &&& r@[k].endpoint@ == endpoints@[k].endpoint@
                    &&& r@[k].status@ == health_words(endpoints@[k].healthy).0
                    &&& r@[k].status_class@ == health_words(endpoints@[k].healthy).1
                },
        decreases endpoints@.len() - i,
    {
        let e = &endpoints[i];
        let (status, status_class) = health_status(e.healthy);
        r.push(
            EndpointHealthView {
                upstream: e.upstream.clone(),
                endpoint: e.endpoint.clone(),
                status,
                status_class,
            },
        );
        i = i + 1;
    }
    r
}

// ---------------------------------------------------------------------------
// Upstreams
// ---------------------------------------------------------------------------

/// A timeout as shown: `Default` when unset, else the milliseconds.
pub open spec fn timeout_text(timeout_ms: Option<u64>) -> Seq<char> {
    match timeout_ms {
        None => "Default"@,
        Some(v) => decimal(v as nat) + " ms"@,
    }
}

pub fn format_timeout(timeout_ms: Option<u64>) -> (r: String)
    ensures
        r@ == timeout_text(timeout_ms),
{
    match timeout_ms {
        None => String::from_str("Default"),
        Some(v) => {
            let mut r = decimal_string(v);
            r.append(" ms");
            r
        },
    }
}

/// The reported health of an endpoint: what the last entry for it says, or
/// unhealthy when no entry names it.
pub open spec fn reported_healthy(
    health: Seq<EndpointHealthModel>,
    upstream: Seq<char>,
    endpoint: Seq<char>,
) -> bool
    decreases health.len(),
{
    if health.len() == 0 {
        false
    } else if health.last().upstream == upstream && health.last().endpoint == endpoint {
        health.last().healthy
    } else {
        reported_healthy(health.drop_last(), upstream, endpoint)
    }
}

/// One endpoint row of the upstreams page.
#[derive(Debug, Clone, PartialEq, Eq)]
pub struct EndpointView {
    pub address: String,
    pub status: String,
    pub status_class: String,
}

/// One upstream pool of the upstreams page.
#[derive(Debug, Clone, PartialEq, Eq)]
pub struct UpstreamView {
    pub name: String,
    pub endpoints: Vec<EndpointView>,
    pub connect_timeout: String,
    pub read_timeout: String,
    pub write_timeout: String,
    pub health_check_interval: String,
}

/// The upstreams page: the pools in name order, and the totals.
#[derive(Debug, Clone, PartialEq, Eq)]
pub struct UpstreamsPage {
    pub upstream_count: usize,
    pub endpoint_count: usize,
    pub upstreams: Vec<UpstreamView>,
}

pub open spec fn health_view_list(v: Seq<EndpointHealth>) -> Seq<EndpointHealthModel> {
    v.map_values(|e: EndpointHealth| e@)
}

/// The view of one pool, with the reported health of each endpoint.
pub open spec fn upstream_view_matches(
    view: UpstreamView,
    name: Seq<char>,
    u: UpstreamModel,
    health: Seq<EndpointHealthModel>,
) -> bool {
    &&& view.name@ == name
    &&& view.endpoints@.len() == u.endpoints.len()
    &&& forall|k: int|
        0 <= k < u.endpoints.len() ==> {
            let healthy = reported_healthy(health, name, u.endpoints[k]);
            &&& (#[trigger] view.endpoints@[k]).address@ == u.endpoints[k]
            &&& view.endpoints@[k].status@ == health_words(healthy).0
            &&& view.endpoints@[k].status_class@ == health_words(healthy).1
        }
    &&& view.connect_timeout@ == timeout_text(u.connect_timeout_ms)
    &&& view.read_timeout@ == timeout_text(u.read_timeout_ms)
    &&& view.write_timeout@ == timeout_text(u.write_timeout_ms)
    &&& view.health_check_interval@ == decimal(u.health_check_interval_seconds as nat) + " s"@
}

fn find_health(health: &Vec<EndpointHealth>, upstream: &str, endpoint: &str) -> (r: bool)
    ensures
        r == reported_healthy(health_view_list(health@), upstream@, endpoint@),
{
    let ghost all = health_view_list(health@);
    let mut i: usize = health.len();
    proof {
        assert(all.take(i as int) =~= all);
    }
    while i > 0
        invariant
            i <= health@.len(),
            all == health_view_list(health@),
            reported_healthy(all, upstream@, endpoint@) == reported_healthy(
                all.take(i as int),
                upstream@,
                endpoint@,
            ),
        decreases i,
    {
        let e = &health[i - 1];
        proof {
            let t = all.take(i as int);
            assert(t.drop_last() =~= all.take(i - 1));
            assert(t.last() == e@);
        }
        if str_eq(e.upstream.as_str(), upstream) && str_eq(e.endpoint.as_str(), endpoint) {
            return e.healthy;
        }
        i = i - 1;
    }
    false
}

fn upstream_view(name: &String, upstream: &UpstreamConfig, health: &Vec<EndpointHealth>) -> (r:
    UpstreamView)
    ensures
        upstream_view_matches(r, name@, upstream@, health_view_list(health@)),
{
    let mut endpoints: Vec<EndpointView> = Vec::new();
    let mut k: usize = 0;
    while k < upstream.endpoints.len()
        invariant
            k <= upstream.endpoints@.len(),
            endpoints@.len() == k,
            forall|j: int|
                0 <= j < k ==> {
                    let healthy = reported_healthy(
                        health_view_list(health@),
                        name@,
                        upstream@.endpoints[j],
                    );
                    &&& (#[trigger] endpoints@[j]).address@ == upstream@.endpoints[j]
                    &&& endpoints@[j].status@ == health_words(healthy).0
                    &&& endpoints@[j].status_class@ == health_words(healthy).1
                },
        decreases upstream.endpoints@.len() - k,
    {
        let address = &upstream.endpoints[k];
        let healthy = find_health(health, name.as_str(), address.as_str());
        let (status, status_class) = health_status(healthy);
        endpoints.push(EndpointView { address: address.clone(), status, status_class });
        k = k + 1;
    }
    let mut interval = decimal_string(upstream.health_check_interval_seconds);
    interval.append(" s");
    UpstreamView {
        name: name.clone(),
        endpoints,
        connect_timeout: format_timeout(upstream.connect_timeout_ms),
        read_timeout: format_timeout(upstream.read_timeout_ms),
        write_timeout: format_timeout(upstream.write_timeout_ms),
        health_check_interval: interval,
    }
}

/// The upstreams page of `config`, with endpoint health as `health` reports
/// it; the endpoint total saturates at the largest `usize`.
pub fn upstreams_page(config: &Config, health: &Vec<EndpointHealth>) -> (r: UpstreamsPage)
    ensures
        r.upstream_count == config@.upstreams.len(),
        r.endpoint_count == summary_of(config@).endpoint_count,
        r.upstreams@.len() == config@.upstreams.len(),
        forall|i: int|
            0 <= i < r.upstreams@.len() ==> upstream_view_matches(
                #[trigger] r.upstreams@[i],
                config@.upstreams[i].0,
                config@.upstreams[i].1,
                health_view_list(health@),
            ),
{
    let mut upstreams: Vec<UpstreamView> = Vec::new();
    let mut i: usize = 0;
    while i < config.upstreams.len()
        invariant
            i <= config@.upstreams.len(),
            upstreams@.len() == i,
            forall|j: int|
                0 <= j < i ==> upstream_view_matches(
                    #[trigger] upstreams@[j],
                    config@.upstreams[j].0,
                    config@.upstreams[j].1,
                    health_view_list(health@),
                ),
        decreases config@.upstreams.len() - i,
    {
        let view = upstream_view(config.upstreams.key_at(i), config.upstreams.value_at(i), health);
        upstreams.push(view);
        i = i + 1;
    }
    let summary = active_config_summary(config);
    UpstreamsPage {
        upstream_count: config.upstreams.len(),
        endpoint_count: summary.endpoint_count,
        upstreams,
    }
}

} // verus!

verus! {

// ---------------------------------------------------------------------------
// Revisions
// ---------------------------------------------------------------------------

/// How a revision stands: the active one, the pending one, or stored.
pub open spec fn revision_status(revision: u64, active: Option<u64>, pending: Option<u64>) -> Seq<
    char,
> {
    if active == Some(revision) {
        "Active"@
    } else if pending == Some(revision) {
        "Pending"@
    } else {
        "Stored"@
    }
}

/// What stands for a missing actor or reason.
pub open spec fn absent_text() -> Seq<char> {
    "\u{2014}"@
}

pub open spec fn or_absent(value: Option<Seq<char>>) -> Seq<char> {
    match value {
        Some(v) => v,
        None => absent_text(),
    }
}

/// One row of the revision history.
#[derive(Debug, Clone, PartialEq, Eq)]
pub struct RevisionView {
    pub revision: u64,
    pub label: String,
    pub created_at: String,
    pub actor: String,
    pub reason: String,
    pub status: String,
}

fn absent_string() -> (r: String)
    ensures
        r@ == absent_text(),
{
    String::from_str("\u{2014}")
}

fn or_absent_string(value: &Option<String>) -> (r: String)
    ensures
        r@ == or_absent(opt_string_view(*value)),
{
    match value {
        Some(v) => v.clone(),
        None => absent_string(),
    }
}

/// The history row of `metadata`, given the active and pending revisions.
pub fn revision_view(metadata: &RevisionMetadata, active: Option<u64>, pending: Option<u64>) -> (r:
    RevisionView)
    ensures
        r.revision == metadata.revision,
        r.label@ == revision_label_text(metadata.revision as nat),
        r.created_at@ == decimal(metadata.created_at_unix_seconds as nat) + " (Unix)"@,
        r.actor@ == or_absent(metadata@.actor),
        r.reason@ == or_absent(metadata@.reason),
        r.status@ == revision_status(metadata.revision, active, pending),
{
    let mut created_at = decimal_string(metadata.created_at_unix_seconds);
    created_at.append(" (Unix)");
    let status = if active == Some(metadata.revision) {
        String::from_str("Active")
    } else if pending == Some(metadata.revision) {
        String::from_str("Pending")
    } else {
        String::from_str("Stored")
    };
    RevisionView {
        revision: metadata.revision,
        label: revision_label_string(metadata.revision),
        created_at,
        actor: or_absent_string(&metadata.actor),
        reason: or_absent_string(&metadata.reason),
        status,
    }
}

/// A revision reference as shown: its label, or `Not set`.
pub open spec fn optional_revision_text(revision: Option<u64>) -> Seq<char> {
    match revision {
        Some(v) => revision_label_text(v as nat),
        None => "Not set"@,
    }
}

pub fn revision_label(revision: Option<u64>) -> (r: String)
    ensures
        r@ == optional_revision_text(revision),
{
    match revision {
        Some(v) => revision_label_string(v),
        None => String::from_str("Not set"),
    }
}

/// Names as a comma-separated list, or the absent mark when there are none.
pub open spec fn list_text(items: Seq<Seq<char>>) -> Seq<char> {
    if items.len() == 0 {
        absent_text()
    } else {
        joined(items, ", "@)
    }
}

pub fn format_list(items: &Vec<String>) -> (r: String)
    ensures
        r@ == list_text(strings_view(items@)),
{
    if items.len() == 0 {
        absent_string()
    } else {
        proof {
            assert(strings_view(items@) == items@.map_values(|x: String| x@));
        }
        join(items, ", ")
    }
}

/// The revisions page.
#[derive(Debug, Clone, PartialEq, Eq)]
pub struct RevisionsPage {
    pub available: bool,
    pub message: String,
    pub active_revision: String,
    pub pending_revision: String,
    pub has_pending: bool,
    pub writes_enabled: bool,
    pub csrf_token: String,
    pub can_diff: bool,
    pub revisions: Vec<RevisionView>,
}

/// The revisions page when the admin plane does not know where the active
/// configuration lives.
pub fn unavailable_revisions_page(token: &CsrfToken) -> (r: RevisionsPage)
    ensures
        !r.available,
        r.message@
            == "Revision storage is unavailable because the admin server was started without a config path."@,
        r.active_revision@ == "Not set"@,
        r.pending_revision@ == "Not set"@,
        !r.has_pending,
        !r.writes_enabled,
        r.csrf_token@ == token.text(),
        !r.can_diff,
        r.revisions@.len() == 0,
{
    RevisionsPage {
        available: false,
        message: String::from_str(
            "Revision storage is unavailable because the admin server was started without a config path.",
        ),
        active_revision: String::from_str("Not set"),
        pending_revision: String::from_str("Not set"),
        has_pending: false,
        writes_enabled: false,
        csrf_token: String::from_str(token.expose()),
        can_diff: false,
        revisions: Vec::new(),
    }
}

/// The revisions page over the listed history, newest first as listed.
pub fn revisions_page(
    state: &RevisionState,
    listed: &Vec<RevisionMetadata>,
    writes_enabled: bool,
    token: &CsrfToken,
) -> (r: RevisionsPage)
    ensures
        r.available,
        r.message@ == (if listed@.len() == 0 {
            "No persisted revisions yet."@
        } else {
            "Immutable snapshots stored beside the active configuration."@
        }),
        r.active_revision@ == optional_revision_text(state.active_revision),
        r.pending_revision@ == optional_revision_text(state.pending_revision),
        r.has_pending == state.pending_revision is Some,
        r.writes_enabled == writes_enabled,
        r.csrf_token@ == token.text(),
        r.can_diff == (listed@.len() >= 2),
        r.revisions@.len() == listed@.len(),
        forall|i: int|
            0 <= i < listed@.len() ==> {
                &&& (#[trigger] r.revisions@[i]).revision == listed@[i].revision
                &&& r.revisions@[i].label@ == revision_label_text(listed@[i].revision as nat)
                &&& r.revisions@[i].created_at@ == decimal(
                    listed@[i].created_at_unix_seconds as nat,
                ) + " (Unix)"@
                &&& r.revisions@[i].actor@ == or_absent(listed@[i]@.actor)
                &&& r.revisions@[i].reason@ == or_absent(listed@[i]@.reason)
                &&& r.revisions@[i].status@ == revision_status(
                    listed@[i].revision,
                    state.active_revision,
                    state.pending_revision,
                )
            },
{
    let mut revisions: Vec<RevisionView> = Vec::new();
    let mut i: usize = 0;
    while i < listed.len()
        invariant
            i <= listed@.len(),
            revisions@.len() == i,
            forall|k: int|
                0 <= k < i ==> {
                    &&& (#[trigger] revisions@[k]).revision == listed@[k].revision
                    &&& revisions@[k].label@ == revision_label_text(listed@[k].revision as nat)
                    &&& revisions@[k].created_at@ == decimal(
                        listed@[k].created_at_unix_seconds as nat,
                    ) + " (Unix)"@
                    &&& revisions@[k].actor@ == or_absent(listed@[k]@.actor)
                    &&& revisions@[k].reason@ == or_absent(listed@[k]@.reason)
                    &&& revisions@[k].status@ == revision_status(
                        listed@[k].revision,
                        state.active_revision,
                        state.pending_revision,
                    )
                },
        decreases listed@.len() - i,
    {
        revisions.push(revision_view(&listed[i], state.active_revision, state.pending_revision));
        i = i + 1;
    }
    let message = if listed.len() == 0 {
        String::from_str("No persisted revisions yet.")
    } else {
        String::from_str("Immutable snapshots stored beside the active configuration.")
    };
    RevisionsPage {
        available: true,
        message,
        active_revision: revision_label(state.active_revision),
        pending_revision: revision_label(state.pending_revision),
        has_pending: state.pending_revision.is_some(),
        writes_enabled,
        csrf_token: String::from_str(token.expose()),
        can_diff: listed.len() >= 2,
        revisions,
    }
}

// ---------------------------------------------------------------------------
// Comparing two revisions
// ---------------------------------------------------------------------------

/// The sentence above a diff of two revisions.
pub open spec fn diff_message(d: DiffModel) -> Seq<char> {
    if diff_is_empty(d) {
        "The selected revisions contain the same effective configuration."@
    } else if needs_restart(d) {
        "This diff contains structural changes that require a process restart after activation."@
    } else {
        "This route-only diff can be applied to the running proxy without a restart."@
    }
}

/// The diff fragment.
#[derive(Debug, Clone, PartialEq, Eq)]
pub struct DiffView {
    pub valid: bool,
    pub message: String,
    pub from_revision: String,
    pub to_revision: String,
    pub empty: bool,
    pub restart_required: bool,
    pub server_changed: bool,
    pub admin_changed: bool,
    pub upstreams_added: String,
    pub upstreams_removed: String,
    pub upstreams_changed: String,
    pub routes_added: String,
    pub routes_removed: String,
    pub routes_changed: String,
}

/// The diff fragment for the change from revision `from` to revision `to`.
pub fn diff_view(from: u64, to: u64, diff: &ConfigDiff) -> (r: DiffView)
    ensures
        r.valid,
        r.message@ == diff_message(diff@),
        r.from_revision@ == revision_label_text(from as nat),
        r.to_revision@ == revision_label_text(to as nat),
        r.empty == diff_is_empty(diff@),
        r.restart_required == needs_restart(diff@),
        r.server_changed == diff.server_changed,
        r.admin_changed == diff.admin_changed,
        r.upstreams_added@ == list_text(diff@.upstreams_added),
        r.upstreams_removed@ == list_text(diff@.upstreams_removed),
        r.upstreams_changed@ == list_text(diff@.upstreams_changed),
        r.routes_added@ == list_text(diff@.routes_added),
        r.routes_removed@ == list_text(diff@.routes_removed),
        r.routes_changed@ == list_text(diff@.routes_changed),
{
    let empty = diff.is_empty();
    let restart_required = diff.restart_required();
    let message = if empty {
        String::from_str("The selected revisions contain the same effective configuration.")
    } else if restart_required {
        String::from_str(
            "This diff contains structural changes that require a process restart after activation.",
        )
    } else {
        String::from_str("This route-only diff can be applied to the running proxy without a restart.")
    };
    DiffView {
        valid: true,
        message,
        from_revision: revision_label_string(from),
        to_revision: revision_label_string(to),
        empty,
        restart_required,
        server_changed: diff.server_changed,
        admin_changed: diff.admin_changed,
        upstreams_added: format_list(&diff.upstreams_added),
        upstreams_removed: format_list(&diff.upstreams_removed),
        upstreams_changed: format_list(&diff.upstreams_changed),
        routes_added: format_list(&diff.routes_added),
        routes_removed: format_list(&diff.routes_removed),
        routes_changed: format_list(&diff.routes_changed),
    }
}

/// The diff fragment when the two revisions could not be compared.
pub fn diff_error_view(message: &str) -> (r: DiffView)
    ensures
        !r.valid,
        r.message@ == message@,
        r.from_revision@.len() == 0 && r.to_revision@.len() == 0,
        !r.empty && !r.restart_required && !r.server_changed && !r.admin_changed,
        r.upstreams_added@.len() == 0 && r.upstreams_removed@.len() == 0
            && r.upstreams_changed@.len() == 0,
        r.routes_added@.len() == 0 && r.routes_removed@.len() == 0 && r.routes_changed@.len()
            == 0,
{
    DiffView {
        valid: false,
        message: String::from_str(message),
        from_revision: String::new(),
        to_revision: String::new(),
        empty: false,
        restart_required: false,
        server_changed: false,
        admin_changed: false,
        upstreams_added: String::new(),
        upstreams_removed: String::new(),
        upstreams_changed: String::new(),
        routes_added: String::new(),
        routes_removed: String::new(),
        routes_changed: String::new(),
    }
}

} // verus!
