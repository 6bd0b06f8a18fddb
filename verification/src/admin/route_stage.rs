//! Staging a route change from the route management form: create, update
//! or delete, each checked against the configuration rules before anything
//! is written.

use vstd::prelude::*;

use crate::admin::mutation::{
    authorize, error_reply, write_refusal, StagePlan, StageReplyModel, STATUS_UNPROCESSABLE,
};
use crate::admin::route_edits::{
    find_route, route_not_found, route_not_found_text, route_position, routes_not_named,
    routes_without, with_route_at, without_route_at,
};
use crate::admin::route_forms::{
    candidate_config, candidate_route, config_with_form_route, route_of_form, RouteForm,
    RouteFormModel,
};
use crate::admin::security::CsrfToken;
use crate::config::{checked, checked_config, with_routes, Config, ConfigModel};
use crate::ordered::DeepCopy;
use crate::text::{str_eq, trim, trimmed};

verus! {

/// An update from the staging form: the route named `original` (trimmed)
/// is replaced in place by the form's route, then the result is validated.
pub open spec fn staged_update(c: ConfigModel, original: Seq<char>, f: RouteFormModel) -> Result<
    ConfigModel,
    Seq<char>,
> {
    let name = trimmed(original);
    match route_position(c.routes, name) {
        None => Err(route_not_found(name)),
        Some(i) => match route_of_form(f) {
            Err(m) => Err(m),
            Ok(route) => checked(with_routes(c, c.routes.update(i, route))),
        },
    }
}

/// A delete from the staging form, by the trimmed name.
pub open spec fn staged_delete(c: ConfigModel, original: Seq<char>) -> Result<ConfigModel, Seq<char>> {
    let name = trimmed(original);
    let kept = routes_not_named(c.routes, name);
    if kept.len() == c.routes.len() {
        Err(route_not_found(name))
    } else {
        checked(with_routes(c, kept))
    }
}

/// The candidate that an operation asks for; `operation` is already trimmed.
pub open spec fn stage_candidate(
    c: ConfigModel,
    operation: Seq<char>,
    original: Seq<char>,
    f: RouteFormModel,
) -> Result<ConfigModel, Seq<char>> {
    if operation == ""@ || operation == "create"@ {
        config_with_form_route(c, f)
    } else if operation == "update"@ {
        staged_update(c, original, f)
    } else if operation == "delete"@ {
        staged_delete(c, original)
    } else {
        Err("unsupported route mutation operation '"@ + operation + "'"@)
    }
}

/// The name the answer speaks of: the deleted route's, else the form's.
pub open spec fn stage_route_name(operation: Seq<char>, original: Seq<char>, f: RouteFormModel) -> Seq<
    char,
> {
    if operation == "delete"@ {
        trimmed(original)
    } else {
        trimmed(f.name)
    }
}

/// The reason recorded with the staged revision.
pub open spec fn stage_reason(operation: Seq<char>, original: Seq<char>, route_name: Seq<char>) -> Seq<
    char,
> {
    if operation == "update"@ {
        "stage route update '"@ + trimmed(original) + "' -> '"@ + route_name + "'"@
    } else if operation == "delete"@ {
        "stage route delete '"@ + trimmed(original) + "'"@
    } else {
        "stage route '"@ + route_name + "'"@
    }
}

/// The staging form: the operation, the route it edits, and the route.
#[derive(Debug, Clone)]
pub struct StageRouteForm {
    pub operation: String,
    pub original_name: String,
    pub route: RouteForm,
}

/// The updated configuration, with the route named `original_name`
/// (trimmed) replaced at its place by the form's route.
pub fn candidate_updated_config(config: &Config, original_name: &str, form: RouteForm) -> (r: Result<
    Config,
    String,
>)
    ensures
        match staged_update(config@, original_name@, form@) {
            Ok(c) => r matches Ok(x) && x@ == c,
            Err(m) => r matches Err(s) && s@ == m,
        },
{
    let original_name = trim(original_name);
    let index = match find_route(&config.routes, original_name) {
        Some(i) => i,
        None => {
            return Err(route_not_found_text(original_name));
        },
    };
    let candidate = without_route_at(config, index);
    let updated_route = match candidate_route(form) {
        Ok(route) => route,
        Err(m) => {
            return Err(m);
        },
    };
    proof {
        assert(config@.routes.remove(index as int).insert(index as int, updated_route@)
            =~= config@.routes.update(index as int, updated_route@));
    }
    let candidate = with_route_at(candidate, index, updated_route);
    checked_config(candidate)
}

/// The configuration without the routes named `original_name` (trimmed).
pub fn candidate_deleted_config(config: &Config, original_name: &str) -> (r: Result<Config, String>)
    ensures
        match staged_delete(config@, original_name@) {
            Ok(c) => r matches Ok(x) && x@ == c,
            Err(m) => r matches Err(s) && s@ == m,
        },
{
    let original_name = trim(original_name);
    let kept = routes_without(&config.routes, original_name);
    if kept.len() == config.routes.len() {
        return Err(route_not_found_text(original_name));
    }
    let mut candidate = config.deep_copy();
    candidate.routes = kept;
    checked_config(candidate)
}

fn stage_reason_text(operation: &str, original_name: &str, route_name: &str) -> (r: String)
    ensures
        r@ == stage_reason(operation@, original_name@, route_name@),
{
    if str_eq(operation, "update") {
        let mut r = String::from_str("stage route update '");
        r.append(trim(original_name));
        r.append("' -> '");
        r.append(route_name);
        r.append("'");
        r
    } else if str_eq(operation, "delete") {
        let mut r = String::from_str("stage route delete '");
        r.append(trim(original_name));
        r.append("'");
        r
    } else {
        let mut r = String::from_str("stage route '");
        r.append(route_name);
        r.append("'");
        r
    }
}

fn stage_candidate_config(
    config: &Config,
    operation: &str,
    original_name: &str,
    form: RouteForm,
) -> (r: Result<Config, String>)
    ensures
        match stage_candidate(config@, operation@, original_name@, form@) {
            Ok(c) => r matches Ok(x) && x@ == c,
            Err(m) => r matches Err(s) && s@ == m,
        },
{
    if str_eq(operation, "") || str_eq(operation, "create") {
        candidate_config(config, form)
    } else if str_eq(operation, "update") {
        candidate_updated_config(config, original_name, form)
    } else if str_eq(operation, "delete") {
        candidate_deleted_config(config, original_name)
    } else {
        let mut m = String::from_str("unsupported route mutation operation '");
        m.append(operation);
        m.append("'");
        Err(m)
    }
}

/// Decides a staging request: the refusal or error to answer with, or the
/// candidate to stage with its reason. `writes_enabled` is the listener
/// policy and `has_config_path` whether the admin plane knows where the
/// active configuration lives.
pub fn plan_route_stage(
    config: &Config,
    writes_enabled: bool,
    token: &CsrfToken,
    has_config_path: bool,
    form: StageRouteForm,
) -> (r: StagePlan)
    ensures
        ({
            let operation = trimmed(form.operation@);
            let route_name = stage_route_name(form.operation@, form.original_name@, form.route@);
            match write_refusal(
                config@.admin,
                writes_enabled,
                form.route.csrf_token@ == token.text(),
                has_config_path,
            ) {
                Some((status, message)) => r matches StagePlan::Reply(reply) && reply@ == (
                StageReplyModel {
                    status,
                    success: false,
                    route_name,
                    revision: Seq::empty(),
                    message,
                }),
                None => match stage_candidate(
                    config@,
                    operation,
                    form.original_name@,
                    form.route@,
                ) {
                    Err(m) => r matches StagePlan::Reply(reply) && reply@ == (StageReplyModel {
                        status: STATUS_UNPROCESSABLE,
                        success: false,
                        route_name,
                        revision: Seq::empty(),
                        message: m,
                    }),
                    Ok(c) => r matches StagePlan::Stage { route_name: n, candidate, reason } && n@
                        == route_name && candidate@ == c && reason@ == stage_reason(
                        operation,
                        form.original_name@,
                        route_name,
                    ),
                },
            }
        }),
{
    let route_name = if str_eq(form.operation.as_str(), "delete") {
        String::from_str(trim(form.original_name.as_str()))
    } else {
        String::from_str(trim(form.route.name.as_str()))
    };
    match authorize(
        &config.admin,
        writes_enabled,
        token,
        form.route.csrf_token.as_str(),
        has_config_path,
        route_name.as_str(),
    ) {
        Ok(()) => {},
        Err(reply) => {
            return StagePlan::Reply(reply);
        },
    }
    let operation = String::from_str(trim(form.operation.as_str()));
    let reason = stage_reason_text(operation.as_str(), form.original_name.as_str(), route_name.as_str());
    match stage_candidate_config(config, operation.as_str(), form.original_name.as_str(), form.route) {
        Ok(candidate) => StagePlan::Stage { route_name, candidate, reason },
        Err(message) => StagePlan::Reply(
            error_reply(STATUS_UNPROCESSABLE, route_name.as_str(), message.as_str()),
        ),
    }
}

} // verus!

verus! {

/// Whatever the staging form hands on to be staged passes the
/// configuration rules, whatever the operation.
pub proof fn law_staged_candidates_are_valid(
    c: ConfigModel,
    operation: Seq<char>,
    original: Seq<char>,
    f: RouteFormModel,
)
    ensures
        stage_candidate(c, operation, original, f) is Ok ==> crate::config::config_valid(
            stage_candidate(c, operation, original, f)->Ok_0,
        ),
{
}

/// A staged create appends the form's route after the existing ones.
pub proof fn law_create_appends_route(c: ConfigModel, f: RouteFormModel)
    requires
        stage_candidate(c, ""@, Seq::empty(), f) is Ok,
    ensures
        stage_candidate(c, ""@, Seq::empty(), f)->Ok_0 == with_routes(
            c,
            c.routes.push(route_of_form(f)->Ok_0),
        ),
{
}

/// A staged update replaces the route of the trimmed name in place.
pub proof fn law_staged_update_keeps_route_order(
    c: ConfigModel,
    original: Seq<char>,
    f: RouteFormModel,
)
    requires
        staged_update(c, original, f) is Ok,
    ensures
        ({
            let result = staged_update(c, original, f)->Ok_0;
            let i = route_position(c.routes, trimmed(original))->Some_0;
            &&& 0 <= i < c.routes.len()
            &&& c.routes[i].name == trimmed(original)
            &&& result.routes == c.routes.update(i, route_of_form(f)->Ok_0)
            &&& result.upstreams == c.upstreams
        }),
{
    crate::admin::route_edits::lemma_route_position_in_range(c.routes, trimmed(original));
}

} // verus!
