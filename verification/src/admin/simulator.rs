//! The route simulator: which route the proxy would pick for a request,
//! by the same evaluation rules as the data plane.

use vstd::prelude::*;

use crate::config::{routes_view, Config};
use crate::routing::{find_matching_route, is_selected, opt_str_view};
use crate::text::{starts_with_char, trim, trimmed};

verus! {

/// A request described in the simulator form.
#[derive(Debug, Clone)]
pub struct RouteMatchForm {
    pub host: String,
    pub path: String,
    pub method: String,
}

/// What the simulator shows.
#[derive(Debug, Clone, PartialEq, Eq)]
pub struct SimulationView {
    pub valid: bool,
    pub matched: bool,
    pub route_name: String,
    pub upstream: String,
    pub priority: i32,
    pub message: String,
}

/// Why a simulated request is refused before any matching: the trimmed path
/// must be given and start with `/`, and the method must be given.
pub open spec fn simulation_problem(path: Seq<char>, method: Seq<char>) -> Option<Seq<char>> {
    if path.len() == 0 {
        Some("path is required"@)
    } else if path[0] != '/' {
        Some("path must start with '/'"@)
    } else if method.len() == 0 {
        Some("method is required"@)
    } else {
        None
    }
}

/// The host the simulated request carries: none when the field is blank.
pub open spec fn simulated_host(host: Seq<char>) -> Option<Seq<char>> {
    if trimmed(host).len() == 0 {
        None
    } else {
        Some(trimmed(host))
    }
}

/// Simulates the form's request against the routes of `config`.
pub fn simulate(config: &Config, form: &RouteMatchForm) -> (r: SimulationView)
    ensures
        ({
            let path = trimmed(form.path@);
            let method = trimmed(form.method@);
            let host = simulated_host(form.host@);
            let routes = config@.routes;
            match simulation_problem(path, method) {
                Some(m) => !r.valid && !r.matched && r.route_name@.len() == 0 && r.upstream@.len()
                    == 0 && r.priority == 0 && r.message@ == m,
                None => r.valid && if r.matched {
                    exists|i: int|
                        is_selected(routes, i, host, path, method) && r.route_name@ == routes[i].name
                            && r.upstream@ == routes[i].upstream && r.priority
                            == routes[i].priority && r.message@ == method + " "@ + path
                            + " matches the active route evaluation rules."@
                } else {
                    &&& forall|j: int|
                        0 <= j < routes.len() ==> !crate::routing::matches(#[trigger] routes[j], host, path, method)
                    &&& r.route_name@.len() == 0
                    &&& r.upstream@.len() == 0
                    &&& r.priority == 0
                    &&& r.message@ == "No active route matches "@ + method + " "@ + path + "."@
                },
            }
        }),
{
    let host = trim(form.host.as_str());
    let path = trim(form.path.as_str());
    let method = trim(form.method.as_str());
    let problem = if path.unicode_len() == 0 {
        Some("path is required")
    } else if !starts_with_char(path, '/') {
        Some("path must start with '/'")
    } else if method.unicode_len() == 0 {
        Some("method is required")
    } else {
        None
    };
    match problem {
        Some(message) => {
            return SimulationView {
                valid: false,
                matched: false,
                route_name: String::new(),
                upstream: String::new(),
                priority: 0,
                message: String::from_str(message),
            };
        },
        None => {},
    }
    let request_host = if host.unicode_len() == 0 {
        None
    } else {
        Some(host)
    };
    assert(opt_str_view(request_host) == simulated_host(form.host@));
    assert(config@.routes == routes_view(config.routes@));
    match find_matching_route(&config.routes, request_host, path, method) {
        Some(route) => {
            let mut message = String::from_str(method);
            message.append(" ");
            message.append(path);
            message.append(" matches the active route evaluation rules.");
            SimulationView {
                valid: true,
                matched: true,
                route_name: route.name.clone(),
                upstream: route.upstream.clone(),
                priority: route.priority,
                message,
            }
        },
        None => {
            let mut message = String::from_str("No active route matches ");
            message.append(method);
            message.append(" ");
            message.append(path);
            message.append(".");
            SimulationView {
                valid: true,
                matched: false,
                route_name: String::new(),
                upstream: String::new(),
                priority: 0,
                message,
            }
        },
    }
}

} // verus!
