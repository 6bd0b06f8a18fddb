//! Editing an existing route through the admin plane: the candidate
//! configuration of an update or a delete, in the original route order.

use vstd::prelude::*;

use crate::admin::mutation::{
    authorize, error_reply, write_refusal, StagePlan, StageReplyModel, STATUS_UNPROCESSABLE,
};
use crate::admin::route_forms::{
    add_header_lines, candidate_config, config_with_form_route, header_line_step,
    header_transform_of, route_of_form, RouteForm, RouteFormModel, ValidationView,
};
use crate::admin::security::CsrfToken;
use crate::config::{
    checked, checked_config, routes_view, with_routes, Config, ConfigModel, HeaderTransform,
    HeaderTransformModel, RouteConfig, RouteModel, UpstreamModel,
};
use crate::ordered::{
    has_key, inserted, lemma_inserted_at_end, lemma_lookup_drop_last, sorted, DeepCopy, MapKey,
};
use crate::text::{
    decimal, decimal_string, fields, join, joined, kept_items, lemma_fields_of_joined_lines,
    lemma_first_index_of, lemma_trimmed_ends, list_items, str_eq, trim_end, trim_start, trim_owned,
    trimmed,
};

verus! {

/// The first route named `name`, if any.
pub open spec fn route_position(routes: Seq<RouteModel>, name: Seq<char>) -> Option<int> {
    if exists|i: int| 0 <= i < routes.len() && routes[i].name == name {
        Some(
            choose|i: int|
                0 <= i < routes.len() && routes[i].name == name && forall|j: int|
                    0 <= j < i ==> routes[j].name != name,
        )
    } else {
        None
    }
}

/// The answer for a route name that no route has.
pub open spec fn route_not_found(name: Seq<char>) -> Seq<char> {
    "route '"@ + name + "' was not found"@
}

/// The routes whose name differs from `name`, in their order.
pub open spec fn routes_not_named(routes: Seq<RouteModel>, name: Seq<char>) -> Seq<RouteModel> {
    routes.filter(|r: RouteModel| r.name != name)
}

/// An update through the route editor: the edited route must first pass
/// validation appended to the other routes, then it takes the original
/// route's place and the whole configuration is validated again.
pub open spec fn edited_config(c: ConfigModel, original: Seq<char>, f: RouteFormModel) -> Result<
    ConfigModel,
    Seq<char>,
> {
    match route_position(c.routes, original) {
        None => Err(route_not_found(original)),
        Some(i) => match config_with_form_route(with_routes(c, c.routes.remove(i)), f) {
            Err(m) => Err(m),
            Ok(_) => match route_of_form(f) {
                Err(m) => Err(m),
                Ok(route) => checked(with_routes(c, c.routes.update(i, route))),
            },
        },
    }
}

/// A delete: every route named `name` goes; naming no route is an error.
pub open spec fn deleted_config(c: ConfigModel, name: Seq<char>) -> Result<ConfigModel, Seq<char>> {
    let kept = routes_not_named(c.routes, name);
    if kept.len() == c.routes.len() {
        Err(route_not_found(name))
    } else {
        checked(with_routes(c, kept))
    }
}

pub proof fn lemma_route_position(routes: Seq<RouteModel>, name: Seq<char>, i: int)
    requires
        0 <= i < routes.len(),
        routes[i].name == name,
        forall|j: int| 0 <= j < i ==> routes[j].name != name,
    ensures
        route_position(routes, name) == Some(i),
{
    let k = choose|k: int|
        0 <= k < routes.len() && routes[k].name == name && forall|j: int|
            0 <= j < k ==> routes[j].name != name;
    assert(0 <= k < routes.len() && routes[k].name == name && forall|j: int|
        0 <= j < k ==> routes[j].name != name);
    if k < i {
        assert(routes[k].name != name);
    } else if k > i {
        assert(routes[i].name != name);
    }
}

/// Some route named `name` means a first one.
proof fn lemma_first_named_exists(routes: Seq<RouteModel>, name: Seq<char>, k: int)
    requires
        0 <= k < routes.len(),
        routes[k].name == name,
    ensures
        exists|i: int|
            0 <= i < routes.len() && routes[i].name == name && forall|j: int|
                0 <= j < i ==> routes[j].name != name,
    decreases k,
{
    if exists|j: int| 0 <= j < k && routes[j].name == name {
        let j = choose|j: int| 0 <= j < k && routes[j].name == name;
        lemma_first_named_exists(routes, name, j);
    } else {
        assert(0 <= k < routes.len() && routes[k].name == name && forall|j: int|
            0 <= j < k ==> routes[j].name != name);
    }
}

/// The position `route_position` names holds the first route of that name.
pub proof fn lemma_route_position_in_range(routes: Seq<RouteModel>, name: Seq<char>)
    ensures
        match route_position(routes, name) {
            Some(i) => 0 <= i < routes.len() && routes[i].name == name && forall|j: int|
                0 <= j < i ==> routes[j].name != name,
            None => forall|j: int| 0 <= j < routes.len() ==> routes[j].name != name,
        },
{
    if exists|i: int| 0 <= i < routes.len() && routes[i].name == name {
        let k = choose|i: int| 0 <= i < routes.len() && routes[i].name == name;
        lemma_first_named_exists(routes, name, k);
    }
}

/// Where the first route named `name` stands.
pub fn find_route(routes: &Vec<RouteConfig>, name: &str) -> (r: Option<usize>)
    ensures
        match r {
            Some(i) => i < routes@.len() && route_position(routes_view(routes@), name@) == Some(
                i as int,
            ),
            None => route_position(routes_view(routes@), name@) is None,
        },
{
    let ghost model = routes_view(routes@);
    let mut i: usize = 0;
    while i < routes.len()
        invariant
            i <= routes@.len(),
            model == routes_view(routes@),
            forall|j: int| 0 <= j < i ==> model[j].name != name@,
        decreases routes@.len() - i,
    {
        if str_eq(routes[i].name.as_str(), name) {
            proof {
                lemma_route_position(model, name@, i as int);
            }
            return Some(i);
        }
        i = i + 1;
    }
    None
}

/// The message for a route name that no route has.
pub fn route_not_found_text(name: &str) -> (r: String)
    ensures
        r@ == route_not_found(name@),
{
    let mut r = String::from_str("route '");
    r.append(name);
    r.append("' was not found");
    r
}

/// The routes not named `name`, in their order.
pub fn routes_without(routes: &Vec<RouteConfig>, name: &str) -> (r: Vec<RouteConfig>)
    ensures
        routes_view(r@) == routes_not_named(routes_view(routes@), name@),
{
    let ghost model = routes_view(routes@);
    let ghost keep = |r: RouteModel| r.name != name@;
    let mut kept: Vec<RouteConfig> = Vec::new();
    let mut i: usize = 0;
    proof {
        assert(model.take(0) =~= Seq::<RouteModel>::empty());
    }
    while i < routes.len()
        invariant
            i <= routes@.len(),
            model == routes_view(routes@),
            model.len() == routes@.len(),
            keep == (|r: RouteModel| r.name != name@),
            routes_view(kept@) == model.take(i as int).filter(keep),
        decreases routes@.len() - i,
    {
        proof {
            reveal(Seq::filter);
            let s = model.take(i + 1);
            assert(s.drop_last() =~= model.take(i as int));
            assert(s.last() == model[i as int]);
            assert(s.filter(keep) == if keep(s.last()) {
                s.drop_last().filter(keep).push(s.last())
            } else {
                s.drop_last().filter(keep)
            });
        }
        if !str_eq(routes[i].name.as_str(), name) {
            kept.push(routes[i].deep_copy());
            proof {
                assert(routes_view(kept@) =~= model.take(i as int).filter(keep).push(model[i as int]));
            }
        }
        i = i + 1;
    }
    proof {
        assert(model.take(routes@.len() as int) =~= model);
    }
    kept
}

/// `config` without its route at `index`.
pub fn without_route_at(config: &Config, index: usize) -> (r: Config)
    requires
        index < config.routes@.len(),
    ensures
        r@ == with_routes(config@, config@.routes.remove(index as int)),
{
    let mut without = config.deep_copy();
    without.routes.remove(index);
    proof {
        assert(routes_view(without.routes@) =~= config@.routes.remove(index as int));
    }
    without
}

/// `config` with `route` placed at `index`.
pub fn with_route_at(config: Config, index: usize, route: RouteConfig) -> (r: Config)
    requires
        index <= config.routes@.len(),
    ensures
        r@ == with_routes(config@, config@.routes.insert(index as int, route@)),
{
    let mut config = config;
    let ghost before = config@.routes;
    config.routes.insert(index, route);
    proof {
        assert(routes_view(config.routes@) =~= before.insert(index as int, route@));
    }
    config
}

/// The route that a validated candidate ended with is the form's route.
proof fn lemma_appended_route(without: ConfigModel, f: RouteFormModel)
    requires
        config_with_form_route(without, f) is Ok,
    ensures
        route_of_form(f) is Ok,
        config_with_form_route(without, f)->Ok_0 == with_routes(
            without,
            without.routes.push(route_of_form(f)->Ok_0),
        ),
{
}

/// The configuration with the route named `original_name` replaced by the
/// route that the form describes, at the same place.
pub fn candidate_updated_config(config: &Config, original_name: &str, form: RouteForm) -> (r: Result<
    Config,
    String,
>)
    ensures
        match edited_config(config@, original_name@, form@) {
            Ok(c) => r matches Ok(x) && x@ == c,
            Err(m) => r matches Err(s) && s@ == m,
        },
{
    let index = match find_route(&config.routes, original_name) {
        Some(i) => i,
        None => {
            return Err(route_not_found_text(original_name));
        },
    };
    let without = without_route_at(config, index);
    let ghost f = form@;
    let mut with_candidate = match candidate_config(&without, form) {
        Ok(c) => c,
        Err(m) => {
            return Err(m);
        },
    };
    proof {
        lemma_appended_route(without@, f);
    }
    let ghost appended = with_candidate.routes@;
    let route = match with_candidate.routes.pop() {
        Some(route) => route,
        None => {
            return Err(String::from_str("candidate route was not produced"));
        },
    };
    proof {
        assert(route@ == routes_view(appended)[appended.len() - 1]);
        assert(config@.routes.remove(index as int).insert(index as int, route@) =~= config@.routes.update(
            index as int,
            route@,
        ));
    }
    let candidate = with_route_at(without, index, route);
    checked_config(candidate)
}

/// The configuration without the routes named `name`.
pub fn candidate_deleted_config(config: &Config, name: &str) -> (r: Result<Config, String>)
    ensures
        match deleted_config(config@, name@) {
            Ok(c) => r matches Ok(x) && x@ == c,
            Err(m) => r matches Err(s) && s@ == m,
        },
{
    let kept = routes_without(&config.routes, name);
    if kept.len() == config.routes.len() {
        return Err(route_not_found_text(name));
    }
    let mut candidate = config.deep_copy();
    candidate.routes = kept;
    checked_config(candidate)
}

} // verus!

verus! {

// ---------------------------------------------------------------------------
// Validating and staging an update or a delete
// ---------------------------------------------------------------------------

/// The verdict the route editor shows before anything is staged.
pub open spec fn update_verdict(c: ConfigModel, original: Seq<char>, f: RouteFormModel) -> (
    bool,
    Seq<char>,
) {
    match edited_config(c, original, f) {
        Ok(_) => (true, "Candidate update passed the active Lungyam configuration validation rules."@),
        Err(m) => (false, m),
    }
}

/// The update form of the route editor.
#[derive(Debug, Clone)]
pub struct UpdateRouteForm {
    pub original_name: String,
    pub route: RouteForm,
}

/// The delete form of the route editor.
#[derive(Debug, Clone)]
pub struct DeleteRouteForm {
    pub csrf_token: String,
    pub name: String,
}

/// Whether an update would pass validation, and what to tell the editor.
pub fn update_validation(config: &Config, form: UpdateRouteForm) -> (r: ValidationView)
    ensures
        r.valid == update_verdict(config@, form.original_name@, form.route@).0,
        r.message@ == update_verdict(config@, form.original_name@, form.route@).1,
        r.route_name@ == trimmed(form.route.name@),
{
    let route_name = trim_owned(form.route.name.as_str());
    match candidate_updated_config(config, form.original_name.as_str(), form.route) {
        Ok(_) => ValidationView {
            valid: true,
            route_name,
            message: String::from_str(
                "Candidate update passed the active Lungyam configuration validation rules.",
            ),
        },
        Err(message) => ValidationView { valid: false, route_name, message },
    }
}

/// The reason recorded with a staged update.
pub open spec fn update_reason(original: Seq<char>, route_name: Seq<char>) -> Seq<char> {
    "stage route update '"@ + original + "' -> '"@ + route_name + "'"@
}

/// Decides a staged update from the route editor.
pub fn plan_route_update(
    config: &Config,
    writes_enabled: bool,
    token: &CsrfToken,
    has_config_path: bool,
    form: UpdateRouteForm,
) -> (r: StagePlan)
    ensures
        ({
            let route_name = trimmed(form.route.name@);
            match write_refusal(
                config@.admin,
                writes_enabled,
                form.route.csrf_token@ == token.text(),
                has_config_path,
            ) {
                Some((status, message)) => r matches StagePlan::Reply(reply) && reply@ == (
                StageReplyModel {
                    status,
                    success: false,
                    route_name,
                    revision: Seq::empty(),
                    message,
                }),
                None => match edited_config(config@, form.original_name@, form.route@) {
                    Err(m) => r matches StagePlan::Reply(reply) && reply@ == (StageReplyModel {
                        status: STATUS_UNPROCESSABLE,
                        success: false,
                        route_name,
                        revision: Seq::empty(),
                        message: m,
                    }),
                    Ok(c) => r matches StagePlan::Stage { route_name: n, candidate, reason } && n@
                        == route_name && candidate@ == c && reason@ == update_reason(
                        form.original_name@,
                        route_name,
                    ),
                },
            }
        }),
{
    let route_name = trim_owned(form.route.name.as_str());
    match authorize(
        &config.admin,
        writes_enabled,
        token,
        form.route.csrf_token.as_str(),
        has_config_path,
        route_name.as_str(),
    ) {
        Ok(()) => {},
        Err(reply) => {
            return StagePlan::Reply(reply);
        },
    }
    let mut reason = String::from_str("stage route update '");
    reason.append(form.original_name.as_str());
    reason.append("' -> '");
    reason.append(route_name.as_str());
    reason.append("'");
    match candidate_updated_config(config, form.original_name.as_str(), form.route) {
        Ok(candidate) => StagePlan::Stage { route_name, candidate, reason },
        Err(message) => StagePlan::Reply(
            error_reply(STATUS_UNPROCESSABLE, route_name.as_str(), message.as_str()),
        ),
    }
}

/// Decides a staged delete from the route editor.
pub fn plan_route_delete(
    config: &Config,
    writes_enabled: bool,
    token: &CsrfToken,
    has_config_path: bool,
    form: DeleteRouteForm,
) -> (r: StagePlan)
    ensures
        ({
            let route_name = trimmed(form.name@);
            match write_refusal(
                config@.admin,
                writes_enabled,
                form.csrf_token@ == token.text(),
                has_config_path,
            ) {
                Some((status, message)) => r matches StagePlan::Reply(reply) && reply@ == (
                StageReplyModel {
                    status,
                    success: false,
                    route_name,
                    revision: Seq::empty(),
                    message,
                }),
                None => match deleted_config(config@, route_name) {
                    Err(m) => r matches StagePlan::Reply(reply) && reply@ == (StageReplyModel {
                        status: STATUS_UNPROCESSABLE,
                        success: false,
                        route_name,
                        revision: Seq::empty(),
                        message: m,
                    }),
                    Ok(c) => r matches StagePlan::Stage { route_name: n, candidate, reason } && n@
                        == route_name && candidate@ == c && reason@ == "stage route delete '"@
                        + route_name + "'"@,
                },
            }
        }),
{
    let route_name = trim_owned(form.name.as_str());
    match authorize(
        &config.admin,
        writes_enabled,
        token,
        form.csrf_token.as_str(),
        has_config_path,
        route_name.as_str(),
    ) {
        Ok(()) => {},
        Err(reply) => {
            return StagePlan::Reply(reply);
        },
    }
    let mut reason = String::from_str("stage route delete '");
    reason.append(route_name.as_str());
    reason.append("'");
    match candidate_deleted_config(config, route_name.as_str()) {
        Ok(candidate) => StagePlan::Stage { route_name, candidate, reason },
        Err(message) => StagePlan::Reply(
            error_reply(STATUS_UNPROCESSABLE, route_name.as_str(), message.as_str()),
        ),
    }
}

} // verus!

verus! {

// ---------------------------------------------------------------------------
// The edit page
// ---------------------------------------------------------------------------

/// Headers to add, one `name: value` line each, in name order.
pub open spec fn added_headers_text(add: Seq<(Seq<char>, Seq<char>)>) -> Seq<char> {
    joined(add.map_values(|e: (Seq<char>, Seq<char>)| e.0 + ": "@ + e.1), "\n"@)
}

/// A number field as the edit form shows it: empty when unset.
pub open spec fn optional_number_text(value: Option<nat>) -> Seq<char> {
    match value {
        Some(v) => decimal(v),
        None => Seq::empty(),
    }
}

/// An upstream the route can point at, marked when it is the route's own.
#[derive(Debug, Clone, PartialEq, Eq)]
pub struct UpstreamOption {
    pub name: String,
    pub selected: bool,
}

/// The edit page of one route, its fields written as the form shows them.
#[derive(Debug, Clone, PartialEq, Eq)]
pub struct RouteEditView {
    pub original_name: String,
    pub name: String,
    pub host: String,
    pub path: String,
    pub methods: String,
    pub priority: i32,
    pub upstreams: Vec<UpstreamOption>,
    pub request_add_headers: String,
    pub request_remove_headers: String,
    pub response_add_headers: String,
    pub response_remove_headers: String,
    pub rate_limit_requests: String,
    pub rate_limit_window_seconds: String,
    pub max_request_body_bytes: String,
    pub csrf_token: String,
    pub writes_enabled: bool,
}

/// The edit page shows `route` of a configuration with `upstreams`.
pub open spec fn shows_route(
    v: RouteEditView,
    route: RouteModel,
    upstreams: Seq<(Seq<char>, UpstreamModel)>,
) -> bool {
    &&& v.original_name@ == route.name
    &&& v.name@ == route.name
    &&& v.host@ == match route.host {
        Some(h) => h,
        None => Seq::empty(),
    }
    &&& v.path@ == route.path
    &&& v.methods@ == joined(route.methods, ", "@)
    &&& v.priority == route.priority
    &&& v.upstreams@.len() == upstreams.len()
    &&& forall|i: int|
        0 <= i < upstreams.len() ==> (#[trigger] v.upstreams@[i]).name@ == upstreams[i].0
            && v.upstreams@[i].selected == (upstreams[i].0 == route.upstream)
    &&& v.request_add_headers@ == added_headers_text(route.policies.request_headers.add)
    &&& v.request_remove_headers@ == joined(route.policies.request_headers.remove, ", "@)
    &&& v.response_add_headers@ == added_headers_text(route.policies.response_headers.add)
    &&& v.response_remove_headers@ == joined(route.policies.response_headers.remove, ", "@)
    &&& v.rate_limit_requests@ == optional_number_text(
        match route.policies.rate_limit {
            Some(l) => Some(l.requests as nat),
            None => None,
        },
    )
    &&& v.rate_limit_window_seconds@ == optional_number_text(
        match route.policies.rate_limit {
            Some(l) => Some(l.window_seconds as nat),
            None => None,
        },
    )
    &&& v.max_request_body_bytes@ == optional_number_text(
        match route.policies.max_request_body_bytes {
            Some(b) => Some(b as nat),
            None => None,
        },
    )
}

/// The `name: value` lines of the headers a transform adds.
pub fn render_added_headers(transform: &HeaderTransform) -> (r: String)
    ensures
        r@ == added_headers_text(transform@.add),
{
    let ghost add = transform@.add;
    let mut lines: Vec<String> = Vec::new();
    let mut i: usize = 0;
    while i < transform.add.len()
        invariant
            i <= add.len(),
            add == transform@.add,
            lines@.len() == i,
            forall|k: int| 0 <= k < i ==> (#[trigger] lines@[k])@ == add[k].0 + ": "@ + add[k].1,
        decreases add.len() - i,
    {
        let mut line = transform.add.key_at(i).clone();
        line.append(": ");
        line.append(transform.add.value_at(i).as_str());
        lines.push(line);
        i = i + 1;
    }
    proof {
        assert(lines@.map_values(|x: String| x@) =~= add.map_values(
            |e: (Seq<char>, Seq<char>)| e.0 + ": "@ + e.1,
        ));
    }
    join(&lines, "\n")
}

fn optional_number_string(value: Option<u64>) -> (r: String)
    ensures
        r@ == optional_number_text(
            match value {
                Some(v) => Some(v as nat),
                None => None,
            },
        ),
{
    match value {
        Some(v) => decimal_string(v),
        None => String::new(),
    }
}

fn upstream_options(config: &Config, selected: &str) -> (r: Vec<UpstreamOption>)
    ensures
        r@.len() == config@.upstreams.len(),
        forall|i: int|
            0 <= i < config@.upstreams.len() ==> (#[trigger] r@[i]).name@
                == config@.upstreams[i].0 && r@[i].selected == (config@.upstreams[i].0
                == selected@),
{
    let mut r: Vec<UpstreamOption> = Vec::new();
    let mut i: usize = 0;
    while i < config.upstreams.len()
        invariant
            i <= config@.upstreams.len(),
            r@.len() == i,
            forall|k: int|
                0 <= k < i ==> (#[trigger] r@[k]).name@ == config@.upstreams[k].0
                    && r@[k].selected == (config@.upstreams[k].0 == selected@),
        decreases config@.upstreams.len() - i,
    {
        let name = config.upstreams.key_at(i);
        r.push(UpstreamOption { name: name.clone(), selected: str_eq(name.as_str(), selected) });
        i = i + 1;
    }
    r
}

/// The edit page of the first route named `name`.
pub fn render_edit(config: &Config, name: &str, token: &CsrfToken, writes_enabled: bool) -> (r:
    Result<RouteEditView, String>)
    ensures
        match route_position(config@.routes, name@) {
            None => r matches Err(m) && m@ == route_not_found(name@),
            Some(i) => r matches Ok(v) && shows_route(v, config@.routes[i], config@.upstreams)
                && v.csrf_token@ == token.text() && v.writes_enabled == writes_enabled,
        },
{
    let index = match find_route(&config.routes, name) {
        Some(i) => i,
        None => {
            return Err(route_not_found_text(name));
        },
    };
    let route = &config.routes[index];
    assert(route@ == config@.routes[index as int]);
    let host = match &route.host {
        Some(h) => h.clone(),
        None => String::new(),
    };
    let (requests, window) = match route.policies.rate_limit {
        Some(l) => (Some(l.requests), Some(l.window_seconds)),
        None => (None, None),
    };
    let max_body = match route.policies.max_request_body_bytes {
        Some(b) => Some(b as u64),
        None => None,
    };
    Ok(
        RouteEditView {
            original_name: route.name.clone(),
            name: route.name.clone(),
            host,
            path: route.path.clone(),
            methods: join(&route.methods, ", "),
            priority: route.priority,
            upstreams: upstream_options(config, route.upstream.as_str()),
            request_add_headers: render_added_headers(&route.policies.request_headers),
            request_remove_headers: join(&route.policies.request_headers.remove, ", "),
            response_add_headers: render_added_headers(&route.policies.response_headers),
            response_remove_headers: join(&route.policies.response_headers.remove, ", "),
            rate_limit_requests: optional_number_string(requests),
            rate_limit_window_seconds: optional_number_string(window),
            max_request_body_bytes: optional_number_string(max_body),
            csrf_token: String::from_str(token.expose()),
            writes_enabled,
        },
    )
}

} // verus!

verus! {

// ---------------------------------------------------------------------------
// Laws
// ---------------------------------------------------------------------------

/// Whatever the route editor hands back passes the configuration rules.
pub proof fn law_edited_candidates_are_valid(
    c: ConfigModel,
    original: Seq<char>,
    f: RouteFormModel,
    name: Seq<char>,
)
    ensures
        edited_config(c, original, f) is Ok ==> crate::config::config_valid(
            edited_config(c, original, f)->Ok_0,
        ),
        deleted_config(c, name) is Ok ==> crate::config::config_valid(
            deleted_config(c, name)->Ok_0,
        ),
{
}

/// An update puts the edited route where the original stood and leaves
/// every other route, and everything but the routes, as it was.
pub proof fn law_update_keeps_route_order(c: ConfigModel, original: Seq<char>, f: RouteFormModel)
    requires
        edited_config(c, original, f) is Ok,
    ensures
        ({
            let result = edited_config(c, original, f)->Ok_0;
            let i = route_position(c.routes, original)->Some_0;
            &&& route_position(c.routes, original) is Some
            &&& result.server == c.server
            &&& result.admin == c.admin
            &&& result.upstreams == c.upstreams
            &&& result.routes.len() == c.routes.len()
            &&& result.routes[i] == route_of_form(f)->Ok_0
            &&& forall|j: int| 0 <= j < c.routes.len() && j != i ==> result.routes[j] == c.routes[j]
        }),
{
    lemma_route_position_in_range(c.routes, original);
}

/// A delete takes out exactly the routes of that name and keeps the others
/// in their order.
pub proof fn law_delete_removes_only_named(c: ConfigModel, name: Seq<char>)
    requires
        deleted_config(c, name) is Ok,
    ensures
        ({
            let result = deleted_config(c, name)->Ok_0;
            &&& result.routes == routes_not_named(c.routes, name)
            &&& result.routes.len() < c.routes.len()
            &&& forall|j: int| 0 <= j < result.routes.len() ==> result.routes[j].name != name
            &&& forall|j: int|
                0 <= j < c.routes.len() && c.routes[j].name != name ==> result.routes.contains(
                    c.routes[j],
                )
        }),
{
    let pred = |r: RouteModel| r.name != name;
    c.routes.filter_lemma(pred);
}

} // verus!

verus! {

/// A header name or value that reads back as written: it holds no line
/// break and trimming leaves it alone.
pub open spec fn reads_back(text: Seq<char>) -> bool {
    trimmed(text) == text && !text.contains('\n')
}

/// Headers that render as lines and read back unchanged: names ascend,
/// are not empty and hold no colon, and names and values read back.
pub open spec fn renderable_headers(add: Seq<(Seq<char>, Seq<char>)>) -> bool {
    &&& sorted::<String, Seq<char>>(add)
    &&& forall|i: int|
        0 <= i < add.len() ==> {
            &&& (#[trigger] add[i]).0.len() > 0
            &&& !add[i].0.contains(':')
            &&& reads_back(add[i].0)
            &&& reads_back(add[i].1)
        }
}

/// The line rendered for one header reads back as that header.
proof fn lemma_header_line_reads_back(
    acc: Seq<(Seq<char>, Seq<char>)>,
    name: Seq<char>,
    value: Seq<char>,
    number: nat,
    direction: Seq<char>,
)
    requires
        name.len() > 0,
        !name.contains(':'),
        trimmed(name) == name,
        trimmed(value) == value,
        !has_key(acc, name),
    ensures
        header_line_step(acc, name + ": "@ + value, number, direction) == Ok::<
            Seq<(Seq<char>, Seq<char>)>,
            Seq<char>,
        >(inserted::<String, Seq<char>>(acc, name, value)),
{
    reveal_strlit(": ");
    let line = name + ": "@ + value;
    lemma_trimmed_ends(name);
    assert(line[0] == name[0]);
    assert(trim_start(line) == line);
    let t = if value.len() > 0 {
        line
    } else {
        name.push(':')
    };
    if value.len() > 0 {
        lemma_trimmed_ends(value);
        assert(line.last() == value.last());
        assert(trim_end(line) == line);
    } else {
        assert(line =~= name.push(':').push(' '));
        assert(line.drop_last() =~= name.push(':'));
        assert(trim_end(line) == trim_end(line.drop_last()));
        assert(name.push(':').last() == ':');
        assert(trim_end(name.push(':')) == name.push(':'));
    }
    assert(trimmed(line) == t);
    let p = name.len() as int;
    assert(t[p] == ':');
    assert forall|j: int| 0 <= j < p implies t[j] != ':' by {
        assert(t[j] == name[j]);
        if name[j] == ':' {
            assert(name.contains(':'));
        }
    }
    lemma_first_index_of(t, ':', p);
    assert(t.subrange(0, p) =~= name);
    let rest = t.subrange(p + 1, t.len() as int);
    if value.len() > 0 {
        assert(rest =~= seq![' '] + value);
        assert(rest[0] == ' ');
        assert(rest.drop_first() =~= value);
        assert(trim_start(rest) == trim_start(value));
        assert(trimmed(rest) == value);
    } else {
        assert(rest =~= Seq::<char>::empty());
        assert(trimmed(rest) == value);
    }
}

/// Rendered header lines read back, in order, as the headers they show.
proof fn lemma_rendered_lines_read_back(
    add: Seq<(Seq<char>, Seq<char>)>,
    lines: Seq<Seq<char>>,
    direction: Seq<char>,
)
    requires
        renderable_headers(add),
        lines.len() == add.len(),
        forall|i: int| 0 <= i < add.len() ==> #[trigger] lines[i] == add[i].0 + ": "@ + add[i].1,
    ensures
        add_header_lines(lines, direction) == Ok::<Seq<(Seq<char>, Seq<char>)>, Seq<char>>(add),
    decreases add.len(),
{
    if add.len() == 0 {
        assert(add =~= Seq::<(Seq<char>, Seq<char>)>::empty());
    } else {
        let n = add.len() - 1;
        let front = add.drop_last();
        let front_lines = lines.drop_last();
        lemma_lookup_drop_last::<String, Seq<char>>(add, add[n].0);
        assert forall|i: int| 0 <= i < front.len() implies #[trigger] front_lines[i] == front[i].0
            + ": "@ + front[i].1 by {
            assert(front[i] == add[i] && front_lines[i] == lines[i]);
        }
        assert forall|i: int| 0 <= i < front.len() implies {
            &&& (#[trigger] front[i]).0.len() > 0
            &&& !front[i].0.contains(':')
            &&& reads_back(front[i].0)
            &&& reads_back(front[i].1)
        } by {
            assert(front[i] == add[i]);
        }
        lemma_rendered_lines_read_back(front, front_lines, direction);
        let name = add[n].0;
        let value = add[n].1;
        assert forall|i: int| 0 <= i < front.len() implies <String as MapKey>::precedes(
            #[trigger] front[i].0,
            name,
        ) by {
            assert(front[i] == add[i]);
        }
        lemma_inserted_at_end::<String, Seq<char>>(front, name, value);
        lemma_header_line_reads_back(front, name, value, lines.len(), direction);
        assert(lines.last() == name + ": "@ + value);
        assert(front.push((name, value)) =~= add);
    }
}

/// The "name: value" lines that the edit page shows for a route's added
/// headers read back, with nothing to remove, as the same headers, whenever
/// the names hold no colon and names and values hold no line break and no
/// surrounding whitespace.
pub proof fn law_rendered_headers_read_back(add: Seq<(Seq<char>, Seq<char>)>, direction: Seq<char>)
    requires
        renderable_headers(add),
    ensures
        header_transform_of(added_headers_text(add), Seq::empty(), direction) == Ok::<
            HeaderTransformModel,
            Seq<char>,
        >(HeaderTransformModel { add, remove: Seq::empty() }),
{
    reveal_strlit("\n");
    reveal_strlit(": ");
    let lines = add.map_values(|e: (Seq<char>, Seq<char>)| e.0 + ": "@ + e.1);
    assert(added_headers_text(add) == joined(lines, "\n"@));
    let blank = Seq::<char>::empty();
    assert(fields(blank, ',', '\n') == seq![blank]);
    assert(seq![blank].drop_last() =~= Seq::<Seq<char>>::empty());
    assert(seq![blank].last() == blank);
    assert(trim_start(blank) == blank);
    assert(trimmed(blank) == blank);
    assert(kept_items(seq![blank]) == kept_items(Seq::<Seq<char>>::empty()));
    assert(list_items(blank, ',', '\n') =~= Seq::<Seq<char>>::empty());
    if add.len() == 0 {
        assert(lines.len() == 0);
        assert(joined(lines, "\n"@) == blank);
        assert(fields(blank, '\n', '\n') == seq![blank]);
        assert(add_header_lines(Seq::<Seq<char>>::empty(), direction) == Ok::<
            Seq<(Seq<char>, Seq<char>)>,
            Seq<char>,
        >(Seq::empty()));
        assert(seq![blank].len() == 1);
        assert(add_header_lines(seq![blank], direction) == header_line_step(
            Seq::empty(),
            blank,
            1,
            direction,
        ));
        assert(add =~= Seq::<(Seq<char>, Seq<char>)>::empty());
    } else {
        assert forall|i: int| 0 <= i < lines.len() implies !(#[trigger] lines[i]).contains('\n') by {
            let l = lines[i];
            assert(l == add[i].0 + ": "@ + add[i].1);
            if l.contains('\n') {
                let k = choose|k: int| 0 <= k < l.len() && l[k] == '\n';
                let nl = add[i].0.len();
                if k < nl {
                    assert(add[i].0[k] == '\n');
                    assert(add[i].0.contains('\n'));
                } else if k >= nl + 2 {
                    assert(add[i].1[k - nl - 2] == '\n');
                    assert(add[i].1.contains('\n'));
                }
            }
        }
        lemma_fields_of_joined_lines(lines);
        lemma_rendered_lines_read_back(add, lines, direction);
    }
}

} // verus!
