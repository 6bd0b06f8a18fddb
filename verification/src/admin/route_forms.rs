//! The route form of the admin plane: from submitted text fields to a
//! candidate route and a candidate configuration.

use vstd::prelude::*;

use crate::config::{
    checked, checked_config, with_routes, Config, ConfigModel, HeaderTransform,
    HeaderTransformModel, RateLimitConfig, RouteConfig, RouteModel, RoutePolicies,
    RoutePoliciesModel,
};
use crate::ordered::{has_key, inserted, DeepCopy, OrderedMap};
use crate::text::{
    chars_of, decimal, decimal_string, fields, find_char, first_index_of, lemma_first_index_of,
    list_items, parse_i32, parse_u64, parse_usize, parsed_i32, parsed_u64, parsed_usize, split_fields,
    split_items, string_of, trim, trim_owned, trimmed,
};

verus! {

/// The submitted route form; every field is the raw text of an input.
#[derive(Debug, Clone)]
pub struct RouteForm {
    pub csrf_token: String,
    pub name: String,
    pub host: String,
    pub path: String,
    pub methods: String,
    pub upstream: String,
    pub priority: String,
    pub request_add_headers: String,
    pub request_remove_headers: String,
    pub response_add_headers: String,
    pub response_remove_headers: String,
    pub rate_limit_requests: String,
    pub rate_limit_window_seconds: String,
    pub max_request_body_bytes: String,
}

pub struct RouteFormModel {
    pub name: Seq<char>,
    pub host: Seq<char>,
    pub path: Seq<char>,
    pub methods: Seq<char>,
    pub upstream: Seq<char>,
    pub priority: Seq<char>,
    pub request_add_headers: Seq<char>,
    pub request_remove_headers: Seq<char>,
    pub response_add_headers: Seq<char>,
    pub response_remove_headers: Seq<char>,
    pub rate_limit_requests: Seq<char>,
    pub rate_limit_window_seconds: Seq<char>,
    pub max_request_body_bytes: Seq<char>,
}

impl View for RouteForm {
    type V = RouteFormModel;

    open spec fn view(&self) -> RouteFormModel {
        RouteFormModel {
            name: self.name@,
            host: self.host@,
            path: self.path@,
            methods: self.methods@,
            upstream: self.upstream@,
            priority: self.priority@,
            request_add_headers: self.request_add_headers@,
            request_remove_headers: self.request_remove_headers@,
            response_add_headers: self.response_add_headers@,
            response_remove_headers: self.response_remove_headers@,
            rate_limit_requests: self.rate_limit_requests@,
            rate_limit_window_seconds: self.rate_limit_window_seconds@,
            max_request_body_bytes: self.max_request_body_bytes@,
        }
    }
}

// ---------------------------------------------------------------------------
// Optional numbers
// ---------------------------------------------------------------------------

/// A blank field gives no number; otherwise the trimmed text must parse.
pub open spec fn optional_i32(text: Seq<char>) -> Result<Option<i32>, ()> {
    let t = trimmed(text);
    if t.len() == 0 {
        Ok(None)
    } else {
        match parsed_i32(t) {
            Some(v) => Ok(Some(v)),
            None => Err(()),
        }
    }
}

pub open spec fn optional_u64(text: Seq<char>) -> Result<Option<u64>, ()> {
    let t = trimmed(text);
    if t.len() == 0 {
        Ok(None)
    } else {
        match parsed_u64(t) {
            Some(v) => Ok(Some(v)),
            None => Err(()),
        }
    }
}

pub open spec fn optional_usize(text: Seq<char>) -> Result<Option<usize>, ()> {
    let t = trimmed(text);
    if t.len() == 0 {
        Ok(None)
    } else {
        match parsed_usize(t) {
            Some(v) => Ok(Some(v)),
            None => Err(()),
        }
    }
}

/// The message for a field that is not a number.
pub open spec fn not_a_number(label: Seq<char>) -> Seq<char> {
    label + " must be a valid number"@
}

fn not_a_number_text(label: &str) -> (r: String)
    ensures
        r@ == not_a_number(label@),
{
    let mut r = String::from_str(label);
    r.append(" must be a valid number");
    r
}

fn parse_optional_i32(value: &str, label: &str) -> (r: Result<Option<i32>, String>)
    ensures
        match optional_i32(value@) {
            Ok(v) => r == Ok::<Option<i32>, String>(v),
            Err(_) => r matches Err(m) && m@ == not_a_number(label@),
        },
{
    let t = trim(value);
    if t.unicode_len() == 0 {
        return Ok(None);
    }
    match parse_i32(t) {
        Some(v) => Ok(Some(v)),
        None => Err(not_a_number_text(label)),
    }
}

fn parse_optional_u64(value: &str, label: &str) -> (r: Result<Option<u64>, String>)
    ensures
        match optional_u64(value@) {
            Ok(v) => r == Ok::<Option<u64>, String>(v),
            Err(_) => r matches Err(m) && m@ == not_a_number(label@),
        },
{
    let t = trim(value);
    if t.unicode_len() == 0 {
        return Ok(None);
    }
    match parse_u64(t) {
        Some(v) => Ok(Some(v)),
        None => Err(not_a_number_text(label)),
    }
}

fn parse_optional_usize(value: &str, label: &str) -> (r: Result<Option<usize>, String>)
    ensures
        match optional_usize(value@) {
            Ok(v) => r == Ok::<Option<usize>, String>(v),
            Err(_) => r matches Err(m) && m@ == not_a_number(label@),
        },
{
    let t = trim(value);
    if t.unicode_len() == 0 {
        return Ok(None);
    }
    match parse_usize(t) {
        Some(v) => Ok(Some(v)),
        None => Err(not_a_number_text(label)),
    }
}

/// Trimmed text, or nothing when it is blank.
pub open spec fn non_empty(value: Seq<char>) -> Option<Seq<char>> {
    if trimmed(value).len() == 0 {
        None
    } else {
        Some(trimmed(value))
    }
}

pub fn non_empty_text(value: &str) -> (r: Option<String>)
    ensures
        match r {
            Some(s) => non_empty(value@) == Some(s@),
            None => non_empty(value@) is None,
        },
{
    let t = trim(value);
    if t.unicode_len() == 0 {
        None
    } else {
        Some(t.to_owned())
    }
}

// ---------------------------------------------------------------------------
// Header transforms
// ---------------------------------------------------------------------------

/// One "name: value" line read into the headers gathered so far. A blank
/// line leaves them as they are; `number` is the line's place, from one.
pub open spec fn header_line_step(
    acc: Seq<(Seq<char>, Seq<char>)>,
    raw_line: Seq<char>,
    number: nat,
    direction: Seq<char>,
) -> Result<Seq<(Seq<char>, Seq<char>)>, Seq<char>> {
    let line = trimmed(raw_line);
    if line.len() == 0 {
        Ok(acc)
    } else {
        match first_index_of(line, ':') {
            None => Err(
                direction + " add header line "@ + decimal(number) + " must use 'name: value'"@,
            ),
            Some(p) => {
                let name = trimmed(line.subrange(0, p));
                let value = trimmed(line.subrange(p + 1, line.len() as int));
                if name.len() == 0 {
                    Err(direction + " add header line "@ + decimal(number) + " has an empty name"@)
                } else if has_key(acc, name) {
                    Err(direction + " add header '"@ + name + "' is configured more than once"@)
                } else {
                    Ok(inserted::<String, Seq<char>>(acc, name, value))
                }
            },
        }
    }
}

/// Reads "name: value" lines in order into headers to add. Blank lines are
/// skipped but still counted; lines are numbered from one in messages.
pub open spec fn add_header_lines(lines: Seq<Seq<char>>, direction: Seq<char>) -> Result<
    Seq<(Seq<char>, Seq<char>)>,
    Seq<char>,
>
    decreases lines.len(),
{
    if lines.len() == 0 {
        Ok(Seq::empty())
    } else {
        match add_header_lines(lines.drop_last(), direction) {
            Err(m) => Err(m),
            Ok(acc) => header_line_step(acc, lines.last(), lines.len(), direction),
        }
    }
}

/// The header transform that two text areas describe: "name: value" lines
/// to add, and names to remove separated by commas or line breaks.
pub open spec fn header_transform_of(
    add_input: Seq<char>,
    remove_input: Seq<char>,
    direction: Seq<char>,
) -> Result<HeaderTransformModel, Seq<char>> {
    match add_header_lines(fields(add_input, '\n', '\n'), direction) {
        Err(m) => Err(m),
        Ok(add) => Ok(HeaderTransformModel { add, remove: list_items(remove_input, ',', '\n') }),
    }
}

/// Once a prefix of the lines fails, every longer list fails the same way.
pub proof fn lemma_add_lines_error_persists(lines: Seq<Seq<char>>, k: int, direction: Seq<char>)
    requires
        0 <= k <= lines.len(),
        add_header_lines(lines.subrange(0, k), direction) is Err,
    ensures
        add_header_lines(lines, direction) == add_header_lines(lines.subrange(0, k), direction),
    decreases lines.len(),
{
    if k == lines.len() {
        assert(lines.subrange(0, k) =~= lines);
    } else {
        let d = lines.drop_last();
        assert(d.subrange(0, k) =~= lines.subrange(0, k));
        lemma_add_lines_error_persists(d, k, direction);
    }
}

fn header_line_message(direction: &str, middle: &str, number: usize, tail: &str) -> (r: String)
    ensures
        r@ == direction@ + middle@ + decimal(number as nat) + tail@,
{
    let mut r = String::from_str(direction);
    r.append(middle);
    let digits = decimal_string(number as u64);
    r.append(digits.as_str());
    r.append(tail);
    r
}

fn add_header_line(
    add: &mut OrderedMap<String, String>,
    raw_line: &str,
    number: usize,
    direction: &str,
) -> (r: Result<(), String>)
    ensures
        match header_line_step(old(add)@, raw_line@, number as nat, direction@) {
            Ok(acc) => r is Ok && final(add)@ == acc,
            Err(m) => r matches Err(s) && s@ == m,
        },
{
    let line = trim(raw_line);
    if line.unicode_len() == 0 {
        return Ok(());
    }
    let chars = chars_of(line);
    match find_char(&chars, ':') {
        None => {
            assert(!exists|i: int| 0 <= i < line@.len() && line@[i] == ':');
            Err(header_line_message(direction, " add header line ", number, " must use 'name: value'"))
        },
        Some(p) => {
            proof {
                lemma_first_index_of(line@, ':', p as int);
            }
            let raw_name = string_of(&chars, 0, p);
            let raw_value = string_of(&chars, p + 1, chars.len());
            let name = trim_owned(raw_name.as_str());
            let value = trim_owned(raw_value.as_str());
            if name.unicode_len() == 0 {
                return Err(
                    header_line_message(direction, " add header line ", number, " has an empty name"),
                );
            }
            let key = name.clone();
            let previous = add.insert(key, value);
            if previous.is_some() {
                let mut m = String::from_str(direction);
                m.append(" add header '");
                m.append(name.as_str());
                m.append("' is configured more than once");
                return Err(m);
            }
            Ok(())
        },
    }
}

pub fn parse_header_transform(add_input: &str, remove_input: &str, direction: &str) -> (r: Result<
    HeaderTransform,
    String,
>)
    ensures
        match header_transform_of(add_input@, remove_input@, direction@) {
            Ok(t) => r matches Ok(x) && x@ == t,
            Err(m) => r matches Err(s) && s@ == m,
        },
{
    let lines = split_fields(add_input, '\n');
    let ghost all = fields(add_input@, '\n', '\n');
    let mut add: OrderedMap<String, String> = OrderedMap::new();
    let mut index: usize = 0;
    proof {
        assert(all.subrange(0, 0) =~= Seq::<Seq<char>>::empty());
    }
    while index < lines.len()
        invariant
            index <= lines@.len(),
            lines@.map_values(|x: String| x@) == all,
            all == fields(add_input@, '\n', '\n'),
            all.len() == lines@.len(),
            add_header_lines(all.subrange(0, index as int), direction@) == Ok::<
                Seq<(Seq<char>, Seq<char>)>,
                Seq<char>,
            >(add@),
        decreases lines@.len() - index,
    {
        let ghost next = all.subrange(0, index + 1);
        assert(next.drop_last() =~= all.subrange(0, index as int));
        assert(next.last() == lines@[index as int]@);
        assert(next.len() == index + 1);
        let ghost before = add@;
        match add_header_line(&mut add, lines[index].as_str(), index + 1, direction) {
            Ok(()) => {},
            Err(m) => {
                proof {
                    assert(add_header_lines(next, direction@) == header_line_step(
                        before,
                        next.last(),
                        (index + 1) as nat,
                        direction@,
                    ));
                    lemma_add_lines_error_persists(all, index + 1, direction@);
                }
                return Err(m);
            },
        }
        index = index + 1;
    }
    proof {
        assert(all.subrange(0, all.len() as int) =~= all);
    }
    let remove = split_items(remove_input, ',', '\n');
    Ok(HeaderTransform { add, remove })
}

// ---------------------------------------------------------------------------
// Candidate routes
// ---------------------------------------------------------------------------

/// The route that a form describes, or the first problem of the form:
/// numbers are read first, then the header transforms, then the rate limit.
#[verifier::opaque]
pub open spec fn route_of_form(f: RouteFormModel) -> Result<RouteModel, Seq<char>> {
    match optional_i32(f.priority) {
        Err(_) => Err(not_a_number("priority"@)),
        Ok(priority) => match optional_usize(f.max_request_body_bytes) {
            Err(_) => Err(not_a_number("max request body bytes"@)),
            Ok(max_body) => match header_transform_of(
                f.request_add_headers,
                f.request_remove_headers,
                "request"@,
            ) {
                Err(m) => Err(m),
                Ok(request_headers) => match header_transform_of(
                    f.response_add_headers,
                    f.response_remove_headers,
                    "response"@,
                ) {
                    Err(m) => Err(m),
                    Ok(response_headers) => match optional_u64(f.rate_limit_requests) {
                        Err(_) => Err(not_a_number("rate-limit requests"@)),
                        Ok(requests) => match optional_u64(f.rate_limit_window_seconds) {
                            Err(_) => Err(not_a_number("rate-limit window seconds"@)),
                            Ok(window) => if requests is Some != window is Some {
                                Err(
                                    "rate-limit requests and window seconds must be provided together"@,
                                )
                            } else {
                                Ok(
                                    RouteModel {
                                        name: trimmed(f.name),
                                        host: non_empty(f.host),
                                        path: trimmed(f.path),
                                        methods: list_items(f.methods, ',', ','),
                                        upstream: trimmed(f.upstream),
                                        priority: match priority {
                                            Some(p) => p,
                                            None => 0,
                                        },
                                        policies: RoutePoliciesModel {
                                            request_headers,
                                            response_headers,
                                            rate_limit: match (requests, window) {
                                                (Some(r), Some(w)) => Some(
                                                    RateLimitConfig { requests: r, window_seconds: w },
                                                ),
                                                _ => None,
                                            },
                                            max_request_body_bytes: max_body,
                                        },
                                    },
                                )
                            },
                        },
                    },
                },
            },
        },
    }
}

/// Builds the candidate route of a form.
pub fn candidate_route(form: RouteForm) -> (r: Result<RouteConfig, String>)
    ensures
        match route_of_form(form@) {
            Ok(route) => r matches Ok(x) && x@ == route,
            Err(m) => r matches Err(s) && s@ == m,
        },
{
    proof {
        reveal(route_of_form);
    }
    let priority = match parse_optional_i32(form.priority.as_str(), "priority") {
        Ok(v) => v,
        Err(m) => {
            return Err(m);
        },
    };
    let max_request_body_bytes = match parse_optional_usize(
        form.max_request_body_bytes.as_str(),
        "max request body bytes",
    ) {
        Ok(v) => v,
        Err(m) => {
            return Err(m);
        },
    };
    let request_headers = match parse_header_transform(
        form.request_add_headers.as_str(),
        form.request_remove_headers.as_str(),
        "request",
    ) {
        Ok(t) => t,
        Err(m) => {
            return Err(m);
        },
    };
    let response_headers = match parse_header_transform(
        form.response_add_headers.as_str(),
        form.response_remove_headers.as_str(),
        "response",
    ) {
        Ok(t) => t,
        Err(m) => {
            return Err(m);
        },
    };
    let rate_requests = match parse_optional_u64(
        form.rate_limit_requests.as_str(),
        "rate-limit requests",
    ) {
        Ok(v) => v,
        Err(m) => {
            return Err(m);
        },
    };
    let rate_window = match parse_optional_u64(
        form.rate_limit_window_seconds.as_str(),
        "rate-limit window seconds",
    ) {
        Ok(v) => v,
        Err(m) => {
            return Err(m);
        },
    };
    let rate_limit = match (rate_requests, rate_window) {
        (None, None) => None,
        (Some(requests), Some(window_seconds)) => Some(RateLimitConfig { requests, window_seconds }),
        _ => {
            return Err(
                String::from_str("rate-limit requests and window seconds must be provided together"),
            );
        },
    };
    let methods = split_items(form.methods.as_str(), ',', ',');
    let route = RouteConfig {
        name: trim_owned(form.name.as_str()),
        host: non_empty_text(form.host.as_str()),
        path: trim_owned(form.path.as_str()),
        methods,
        upstream: trim_owned(form.upstream.as_str()),
        priority: match priority {
            Some(p) => p,
            None => 0,
        },
        policies: RoutePolicies {
            request_headers,
            response_headers,
            rate_limit,
            max_request_body_bytes,
        },
    };
    proof {
        assert(route@.host == non_empty(form@.host));
    }
    Ok(route)
}

/// The configuration with the form's route appended, once it validates.
pub open spec fn config_with_form_route(c: ConfigModel, f: RouteFormModel) -> Result<
    ConfigModel,
    Seq<char>,
> {
    match route_of_form(f) {
        Err(m) => Err(m),
        Ok(route) => checked(with_routes(c, c.routes.push(route))),
    }
}

/// The current configuration with the form's route appended, validated.
pub fn candidate_config(config: &Config, form: RouteForm) -> (r: Result<Config, String>)
    ensures
        match config_with_form_route(config@, form@) {
            Ok(c) => r matches Ok(x) && x@ == c,
            Err(m) => r matches Err(s) && s@ == m,
        },
{
    let route = match candidate_route(form) {
        Ok(route) => route,
        Err(m) => {
            return Err(m);
        },
    };
    let mut candidate = config.deep_copy();
    let ghost before = candidate.routes@;
    candidate.routes.push(route);
    proof {
        assert(crate::config::routes_view(candidate.routes@) =~= config@.routes.push(route@));
    }
    checked_config(candidate)
}

/// The verdict shown for a submitted route before anything is staged.
pub open spec fn form_verdict(c: ConfigModel, f: RouteFormModel) -> (bool, Seq<char>) {
    match config_with_form_route(c, f) {
        Ok(_) => (true, "Candidate passed the active Lungyam configuration validation rules."@),
        Err(m) => (false, m),
    }
}

/// What the validation fragment shows: the verdict, the route's name and
/// the message.
#[derive(Debug, Clone, PartialEq, Eq)]
pub struct ValidationView {
    pub valid: bool,
    pub route_name: String,
    pub message: String,
}

/// Whether a submitted route would pass validation next to the active
/// configuration, with the problem described when it would not.
pub fn route_validation(config: &Config, form: RouteForm) -> (r: ValidationView)
    ensures
        r.valid == form_verdict(config@, form@).0,
        r.message@ == form_verdict(config@, form@).1,
        r.route_name@ == trimmed(form.name@),
{
    let route_name = trim_owned(form.name.as_str());
    match candidate_config(config, form) {
        Ok(_) => ValidationView {
            valid: true,
            route_name,
            message: String::from_str(
                "Candidate passed the active Lungyam configuration validation rules.",
            ),
        },
        Err(message) => ValidationView { valid: false, route_name, message },
    }
}

} // verus!

verus! {

/// Headers read from "name: value" lines come out in increasing name
/// order, so no name is added twice.
pub proof fn law_added_headers_sorted(lines: Seq<Seq<char>>, direction: Seq<char>)
    ensures
        add_header_lines(lines, direction) is Ok ==> crate::ordered::sorted::<String, Seq<char>>(
            add_header_lines(lines, direction)->Ok_0,
        ),
    decreases lines.len(),
{
    if lines.len() > 0 {
        law_added_headers_sorted(lines.drop_last(), direction);
        match add_header_lines(lines.drop_last(), direction) {
            Ok(acc) => {
                let line = trimmed(lines.last());
                if line.len() > 0 {
                    match first_index_of(line, ':') {
                        Some(p) => {
                            let name = trimmed(line.subrange(0, p));
                            let value = trimmed(line.subrange(p + 1, line.len() as int));
                            crate::ordered::lemma_inserted::<String, Seq<char>>(acc, name, value);
                        },
                        None => {},
                    }
                }
            },
            Err(_) => {},
        }
    }
}

} // verus!

verus! {

/// The route a form describes takes each field from the form's own input:
/// trimmed name, path and upstream, the host unless blank, the methods
/// split at commas, and for each direction the headers to add read from
/// that direction's lines and the names to remove split at commas and line
/// breaks, trimmed, blanks dropped.
pub proof fn law_route_fields_come_from_their_inputs(f: RouteFormModel)
    requires
        route_of_form(f) is Ok,
    ensures
        ({
            let route = route_of_form(f)->Ok_0;
            &&& route.name == trimmed(f.name)
            &&& route.path == trimmed(f.path)
            &&& route.upstream == trimmed(f.upstream)
            &&& route.host == non_empty(f.host)
            &&& route.methods == list_items(f.methods, ',', ',')
            &&& route.policies.request_headers.remove == list_items(
                f.request_remove_headers,
                ',',
                '\n',
            )
            &&& route.policies.response_headers.remove == list_items(
                f.response_remove_headers,
                ',',
                '\n',
            )
            &&& add_header_lines(fields(f.request_add_headers, '\n', '\n'), "request"@) == Ok::<
                Seq<(Seq<char>, Seq<char>)>,
                Seq<char>,
            >(route.policies.request_headers.add)
            &&& add_header_lines(fields(f.response_add_headers, '\n', '\n'), "response"@) == Ok::<
                Seq<(Seq<char>, Seq<char>)>,
                Seq<char>,
            >(route.policies.response_headers.add)
            &&& route.priority == match optional_i32(f.priority)->Ok_0 {
                Some(p) => p,
                None => 0,
            }
            &&& route.policies.max_request_body_bytes == optional_usize(
                f.max_request_body_bytes,
            )->Ok_0
            &&& route.policies.rate_limit == match (
                optional_u64(f.rate_limit_requests)->Ok_0,
                optional_u64(f.rate_limit_window_seconds)->Ok_0,
            ) {
                (Some(r), Some(w)) => Some(RateLimitConfig { requests: r, window_seconds: w }),
                _ => None,
            }
        }),
{
    reveal(route_of_form);
}

/// What a form says about one direction's headers decides that direction
/// alone: two forms that agree on the response fields build routes with the
/// same response policy, whatever their request fields say, and likewise
/// the other way round.
pub proof fn law_header_directions_are_independent(f: RouteFormModel, g: RouteFormModel)
    requires
        route_of_form(f) is Ok,
        route_of_form(g) is Ok,
    ensures
        f.response_add_headers == g.response_add_headers && f.response_remove_headers
            == g.response_remove_headers ==> route_of_form(f)->Ok_0.policies.response_headers
            == route_of_form(g)->Ok_0.policies.response_headers,
        f.request_add_headers == g.request_add_headers && f.request_remove_headers
            == g.request_remove_headers ==> route_of_form(f)->Ok_0.policies.request_headers
            == route_of_form(g)->Ok_0.policies.request_headers,
{
    law_route_fields_come_from_their_inputs(f);
    law_route_fields_come_from_their_inputs(g);
}

} // verus!
