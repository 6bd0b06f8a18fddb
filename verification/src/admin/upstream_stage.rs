//! Staging a new upstream pool from the admin plane.

use vstd::prelude::*;

use crate::admin::mutation::{
    revision_label_string, revision_label_text, STATUS_FORBIDDEN, STATUS_INTERNAL_ERROR, STATUS_OK,
    STATUS_UNAVAILABLE, STATUS_UNPROCESSABLE,
};
use crate::admin::security::CsrfToken;
use crate::config::{
    checked, checked_config, with_upstreams, Config, ConfigModel, UpstreamConfig, UpstreamModel,
};
use crate::ordered::{has_key, inserted, DeepCopy};
use crate::text::{
    eq_ignore_ascii_case, list_items, parse_u64, parsed_u64, split_items, str_eq_ignore_ascii_case,
    strip_suffix, trim, trim_owned, trimmed, without_suffix,
};

verus! {

/// The upstream creation form; every field is the raw text of an input.
#[derive(Debug, Clone)]
pub struct StageUpstreamCreateForm {
    pub csrf_token: String,
    pub upstream_name: String,
    pub endpoints: String,
    pub connect_timeout: String,
    pub read_timeout: String,
    pub write_timeout: String,
    pub health_check_interval: String,
}

pub struct UpstreamFormModel {
    pub upstream_name: Seq<char>,
    pub endpoints: Seq<char>,
    pub connect_timeout: Seq<char>,
    pub read_timeout: Seq<char>,
    pub write_timeout: Seq<char>,
    pub health_check_interval: Seq<char>,
}

impl View for StageUpstreamCreateForm {
    type V = UpstreamFormModel;

    open spec fn view(&self) -> UpstreamFormModel {
        UpstreamFormModel {
            upstream_name: self.upstream_name@,
            endpoints: self.endpoints@,
            connect_timeout: self.connect_timeout@,
            read_timeout: self.read_timeout@,
            write_timeout: self.write_timeout@,
            health_check_interval: self.health_check_interval@,
        }
    }
}

/// A positive number of units, written with or without its unit suffix.
pub open spec fn positive_amount(value: Seq<char>, label: Seq<char>, suffix: Seq<char>) -> Result<
    u64,
    Seq<char>,
> {
    let number = match without_suffix(value, suffix) {
        Some(rest) => trimmed(rest),
        None => value,
    };
    match parsed_u64(number) {
        None => Err(label + " must be a valid number"@),
        Some(n) => if n == 0 {
            Err(label + " must be greater than zero"@)
        } else {
            Ok(n)
        },
    }
}

/// An optional duration: blank or "default" (in any case) leaves it unset.
pub open spec fn optional_duration(value: Seq<char>, label: Seq<char>, suffix: Seq<char>) -> Result<
    Option<u64>,
    Seq<char>,
> {
    let v = trimmed(value);
    if v.len() == 0 || eq_ignore_ascii_case(v, "default"@) {
        Ok(None)
    } else {
        match positive_amount(v, label, suffix) {
            Ok(n) => Ok(Some(n)),
            Err(m) => Err(m),
        }
    }
}

/// A duration that must be given.
pub open spec fn required_duration(value: Seq<char>, label: Seq<char>, suffix: Seq<char>) -> Result<
    u64,
    Seq<char>,
> {
    positive_amount(trimmed(value), label, suffix)
}

/// The configuration with the form's upstream added, or the first problem:
/// the name, the endpoints, the three timeouts, the health-check interval,
/// then the rules of the whole configuration.
pub open spec fn upstream_created(c: ConfigModel, f: UpstreamFormModel) -> Result<
    ConfigModel,
    Seq<char>,
> {
    let name = trimmed(f.upstream_name);
    let endpoints = list_items(f.endpoints, ',', '\n');
    if name.len() == 0 {
        Err("upstream name must not be empty"@)
    } else if has_key(c.upstreams, name) {
        Err("upstream '"@ + name + "' already exists"@)
    } else if endpoints.len() == 0 {
        Err("at least one upstream endpoint is required"@)
    } else {
        match optional_duration(f.connect_timeout, "connect timeout"@, "ms"@) {
            Err(m) => Err(m),
            Ok(connect) => match optional_duration(f.read_timeout, "read timeout"@, "ms"@) {
                Err(m) => Err(m),
                Ok(read) => match optional_duration(f.write_timeout, "write timeout"@, "ms"@) {
                    Err(m) => Err(m),
                    Ok(write) => match required_duration(
                        f.health_check_interval,
                        "health-check interval"@,
                        "s"@,
                    ) {
                        Err(m) => Err(m),
                        Ok(interval) => checked(
                            with_upstreams(
                                c,
                                inserted::<String, UpstreamModel>(
                                    c.upstreams,
                                    name,
                                    UpstreamModel {
                                        endpoints,
                                        connect_timeout_ms: connect,
                                        read_timeout_ms: read,
                                        write_timeout_ms: write,
                                        health_check_interval_seconds: interval,
                                    },
                                ),
                            ),
                        ),
                    },
                },
            },
        }
    }
}

fn label_message(label: &str, tail: &str) -> (r: String)
    ensures
        r@ == label@ + tail@,
{
    let mut r = String::from_str(label);
    r.append(tail);
    r
}

fn parse_positive_amount(value: &str, label: &str, suffix: &str) -> (r: Result<u64, String>)
    ensures
        match positive_amount(value@, label@, suffix@) {
            Ok(n) => r == Ok::<u64, String>(n),
            Err(m) => r matches Err(s) && s@ == m,
        },
{
    let number = match strip_suffix(value, suffix) {
        Some(rest) => trim(rest),
        None => value,
    };
    match parse_u64(number) {
        None => Err(label_message(label, " must be a valid number")),
        Some(n) => if n == 0 {
            Err(label_message(label, " must be greater than zero"))
        } else {
            Ok(n)
        },
    }
}

/// Reads an optional duration field.
pub fn parse_optional_duration(value: &str, label: &str, suffix: &str) -> (r: Result<
    Option<u64>,
    String,
>)
    ensures
        match optional_duration(value@, label@, suffix@) {
            Ok(v) => r == Ok::<Option<u64>, String>(v),
            Err(m) => r matches Err(s) && s@ == m,
        },
{
    let v = trim(value);
    if v.unicode_len() == 0 || str_eq_ignore_ascii_case(v, "default") {
        return Ok(None);
    }
    match parse_positive_amount(v, label, suffix) {
        Ok(n) => Ok(Some(n)),
        Err(m) => Err(m),
    }
}

/// Reads a duration field that must be given.
pub fn parse_required_duration(value: &str, label: &str, suffix: &str) -> (r: Result<u64, String>)
    ensures
        match required_duration(value@, label@, suffix@) {
            Ok(v) => r == Ok::<u64, String>(v),
            Err(m) => r matches Err(s) && s@ == m,
        },
{
    parse_positive_amount(trim(value), label, suffix)
}

/// The configuration with the form's new upstream pool, validated.
pub fn candidate_config(config: &Config, form: &StageUpstreamCreateForm) -> (r: Result<
    Config,
    String,
>)
    ensures
        match upstream_created(config@, form@) {
            Ok(c) => r matches Ok(x) && x@ == c,
            Err(m) => r matches Err(s) && s@ == m,
        },
{
    let upstream_name = trim_owned(form.upstream_name.as_str());
    if upstream_name.unicode_len() == 0 {
        return Err(String::from_str("upstream name must not be empty"));
    }
    if config.upstreams.contains_key(&upstream_name) {
        let mut m = String::from_str("upstream '");
        m.append(upstream_name.as_str());
        m.append("' already exists");
        return Err(m);
    }
    let endpoints = split_items(form.endpoints.as_str(), ',', '\n');
    if endpoints.len() == 0 {
        return Err(String::from_str("at least one upstream endpoint is required"));
    }
    let connect_timeout_ms = match parse_optional_duration(
        form.connect_timeout.as_str(),
        "connect timeout",
        "ms",
    ) {
        Ok(v) => v,
        Err(m) => {
            return Err(m);
        },
    };
    let read_timeout_ms = match parse_optional_duration(
        form.read_timeout.as_str(),
        "read timeout",
        "ms",
    ) {
        Ok(v) => v,
        Err(m) => {
            return Err(m);
        },
    };
    let write_timeout_ms = match parse_optional_duration(
        form.write_timeout.as_str(),
        "write timeout",
        "ms",
    ) {
        Ok(v) => v,
        Err(m) => {
            return Err(m);
        },
    };
    let health_check_interval_seconds = match parse_required_duration(
        form.health_check_interval.as_str(),
        "health-check interval",
        "s",
    ) {
        Ok(v) => v,
        Err(m) => {
            return Err(m);
        },
    };
    let upstream = UpstreamConfig {
        endpoints,
        connect_timeout_ms,
        read_timeout_ms,
        write_timeout_ms,
        health_check_interval_seconds,
    };
    let mut candidate = config.deep_copy();
    candidate.upstreams.insert(upstream_name, upstream);
    checked_config(candidate)
}

// ---------------------------------------------------------------------------
// The staging answer
// ---------------------------------------------------------------------------

/// The fragment shown once an upstream was staged as `revision`.
pub open spec fn upstream_staged_html(revision: nat) -> Seq<char> {
    "<div class=\"validation-card validation-success\"><strong>Pending revision created</strong><p>Revision "@
        + revision_label_text(revision)
        + " is ready for review. The active proxy configuration was not changed.</p><p><strong>Restart required:</strong> upstream topology changes are not hot-reloadable yet.</p></div>"@
}

/// The fragment shown whenever an upstream was not staged; the reason goes
/// to the log only.
pub open spec fn upstream_rejected_html() -> Seq<char> {
    "<div class=\"validation-card validation-error\"><strong>Upstream was not staged</strong><p>Review the candidate validation and admin write settings.</p></div>"@
}

/// An answer of the upstream staging endpoint: status, fragment, and the
/// reason to log when it is a refusal.
#[derive(Debug, Clone, PartialEq, Eq)]
pub struct UpstreamReply {
    pub status: u16,
    pub html: String,
    pub log_message: String,
}

/// What to do with an upstream staging request.
#[derive(Debug)]
pub enum UpstreamStagePlan {
    Reply(UpstreamReply),
    Stage { candidate: Config, reason: String },
}

/// Why an upstream write is refused before any candidate is built.
pub open spec fn upstream_refusal(
    read_only: bool,
    writes_enabled: bool,
    token_ok: bool,
    has_config_path: bool,
) -> Option<(u16, Seq<char>)> {
    if read_only {
        Some((STATUS_FORBIDDEN, "Admin is configured as read-only."@))
    } else if !writes_enabled {
        Some(
            (
                STATUS_FORBIDDEN,
                "Admin writes require a loopback listener until authentication is configured."@,
            ),
        )
    } else if !token_ok {
        Some((STATUS_FORBIDDEN, "CSRF token validation failed."@))
    } else if !has_config_path {
        Some(
            (
                STATUS_UNAVAILABLE,
                "Config path is unavailable; staging is disabled for this admin router."@,
            ),
        )
    } else {
        None
    }
}

fn rejected_html() -> (r: String)
    ensures
        r@ == upstream_rejected_html(),
{
    String::from_str(
        "<div class=\"validation-card validation-error\"><strong>Upstream was not staged</strong><p>Review the candidate validation and admin write settings.</p></div>",
    )
}

fn rejection(status: u16, log_message: &str) -> (r: UpstreamReply)
    ensures
        r.status == status,
        r.html@ == upstream_rejected_html(),
        r.log_message@ == log_message@,
{
    UpstreamReply { status, html: rejected_html(), log_message: String::from_str(log_message) }
}

/// Decides an upstream staging request: a refusal, or the candidate to
/// stage with the reason recorded beside it.
pub fn plan_upstream_stage(
    config: &Config,
    writes_enabled: bool,
    token: &CsrfToken,
    has_config_path: bool,
    form: &StageUpstreamCreateForm,
) -> (r: UpstreamStagePlan)
    ensures
        match upstream_refusal(
            config@.admin.read_only,
            writes_enabled,
            form.csrf_token@ == token.text(),
            has_config_path,
        ) {
            Some((status, message)) => r matches UpstreamStagePlan::Reply(reply) && reply.status
                == status && reply.html@ == upstream_rejected_html() && reply.log_message@
                == message,
            None => match upstream_created(config@, form@) {
                Err(m) => r matches UpstreamStagePlan::Reply(reply) && reply.status
                    == STATUS_UNPROCESSABLE && reply.html@ == upstream_rejected_html()
                    && reply.log_message@ == m,
                Ok(c) => r matches UpstreamStagePlan::Stage { candidate, reason } && candidate@
                    == c && reason@ == "stage upstream create '"@ + trimmed(form.upstream_name@)
                    + "'"@,
            },
        },
{
    if config.admin.read_only {
        return UpstreamStagePlan::Reply(
            rejection(STATUS_FORBIDDEN, "Admin is configured as read-only."),
        );
    }
    if !writes_enabled {
        return UpstreamStagePlan::Reply(
            rejection(
                STATUS_FORBIDDEN,
                "Admin writes require a loopback listener until authentication is configured.",
            ),
        );
    }
    if !token.verify(form.csrf_token.as_str()) {
        return UpstreamStagePlan::Reply(rejection(STATUS_FORBIDDEN, "CSRF token validation failed."));
    }
    if !has_config_path {
        return UpstreamStagePlan::Reply(
            rejection(
                STATUS_UNAVAILABLE,
                "Config path is unavailable; staging is disabled for this admin router.",
            ),
        );
    }
    match candidate_config(config, form) {
        Err(message) => UpstreamStagePlan::Reply(
            rejection(STATUS_UNPROCESSABLE, message.as_str()),
        ),
        Ok(candidate) => {
            let mut reason = String::from_str("stage upstream create '");
            reason.append(trim(form.upstream_name.as_str()));
            reason.append("'");
            UpstreamStagePlan::Stage { candidate, reason }
        },
    }
}

/// The answer once the store has tried to stage the candidate: the
/// revision it created, or none when it failed (its error is logged apart).
pub fn upstream_stage_outcome(staged: Option<u64>) -> (r: UpstreamReply)
    ensures
        match staged {
            Some(revision) => r.status == STATUS_OK && r.html@ == upstream_staged_html(
                revision as nat,
            ) && r.log_message@ == Seq::<char>::empty(),
            None => r.status == STATUS_INTERNAL_ERROR && r.html@ == upstream_rejected_html()
                && r.log_message@ == "The pending revision could not be created."@,
        },
{
    match staged {
        Some(revision) => {
            let mut html = String::from_str(
                "<div class=\"validation-card validation-success\"><strong>Pending revision created</strong><p>Revision ",
            );
            let label = revision_label_string(revision);
            html.append(label.as_str());
            html.append(
                " is ready for review. The active proxy configuration was not changed.</p><p><strong>Restart required:</strong> upstream topology changes are not hot-reloadable yet.</p></div>",
            );
            UpstreamReply { status: STATUS_OK, html, log_message: String::new() }
        },
        None => rejection(STATUS_INTERNAL_ERROR, "The pending revision could not be created."),
    }
}

} // verus!

verus! {

/// A created upstream passes the rules, stands under its trimmed name with
/// the form's values, and every other upstream and every route stay as
/// they were.
pub proof fn law_created_upstream(c: ConfigModel, f: UpstreamFormModel)
    requires
        crate::ordered::sorted::<String, UpstreamModel>(c.upstreams),
        upstream_created(c, f) is Ok,
    ensures
        ({
            let result = upstream_created(c, f)->Ok_0;
            let name = trimmed(f.upstream_name);
            &&& crate::config::config_valid(result)
            &&& !has_key(c.upstreams, name)
            &&& result.routes == c.routes
            &&& result.server == c.server && result.admin == c.admin
            &&& result.upstreams.len() == c.upstreams.len() + 1
            &&& crate::ordered::lookup(result.upstreams, name) matches Some(u) && u.endpoints
                == list_items(f.endpoints, ',', '\n') && u.connect_timeout_ms == optional_duration(
                f.connect_timeout,
                "connect timeout"@,
                "ms"@,
            )->Ok_0 && u.read_timeout_ms == optional_duration(
                f.read_timeout,
                "read timeout"@,
                "ms"@,
            )->Ok_0 && u.write_timeout_ms == optional_duration(
                f.write_timeout,
                "write timeout"@,
                "ms"@,
            )->Ok_0 && u.health_check_interval_seconds == required_duration(
                f.health_check_interval,
                "health-check interval"@,
                "s"@,
            )->Ok_0
            &&& forall|other: Seq<char>|
                other != name ==> #[trigger] crate::ordered::lookup(result.upstreams, other)
                    == crate::ordered::lookup(c.upstreams, other)
        }),
{
    let name = trimmed(f.upstream_name);
    let connect = optional_duration(f.connect_timeout, "connect timeout"@, "ms"@)->Ok_0;
    let read = optional_duration(f.read_timeout, "read timeout"@, "ms"@)->Ok_0;
    let write = optional_duration(f.write_timeout, "write timeout"@, "ms"@)->Ok_0;
    let interval = required_duration(f.health_check_interval, "health-check interval"@, "s"@)->Ok_0;
    let u = UpstreamModel {
        endpoints: list_items(f.endpoints, ',', '\n'),
        connect_timeout_ms: connect,
        read_timeout_ms: read,
        write_timeout_ms: write,
        health_check_interval_seconds: interval,
    };
    crate::ordered::lemma_inserted::<String, UpstreamModel>(c.upstreams, name, u);
}

/// A timeout field holding a positive number of milliseconds, written
/// without a unit, reads as that number.
proof fn lemma_plain_number_duration(value: Seq<char>, label: Seq<char>, n: u64)
    requires
        parsed_u64(trimmed(value)) == Some(n),
        n > 0,
    ensures
        optional_duration(value, label, "ms"@) == Ok::<Option<u64>, Seq<char>>(Some(n)),
{
    reveal_strlit("ms");
    reveal_strlit("default");
    let v = trimmed(value);
    let d = crate::text::unsigned_digits(v);
    assert(d.len() > 0 && crate::text::all_digits(d));
    assert(v.len() > 0);
    assert(v.last() == d.last());
    assert(crate::text::is_digit(v.last()));
    if without_suffix(v, "ms"@) is Some {
        assert(v.subrange(v.len() - 2, v.len() as int)[1] == 's');
        assert(v.last() == 's');
    }
    if eq_ignore_ascii_case(v, "default"@) {
        assert(v.len() == 7);
        assert(crate::text::ascii_lower_code(v[6]) == crate::text::ascii_lower_code("default"@[6]));
        assert("default"@[6] == 't');
        assert(v[6] == v.last());
    }
}

/// A blank timeout field, or one that says "default" in any case, leaves
/// that timeout of the created upstream unset, whatever the other timeout
/// fields say; a field holding a positive number of milliseconds sets that
/// timeout, and that one only, to the number.
pub proof fn law_timeout_fields_are_read_alone(c: ConfigModel, f: UpstreamFormModel)
    requires
        crate::ordered::sorted::<String, UpstreamModel>(c.upstreams),
        upstream_created(c, f) is Ok,
    ensures
        ({
            let u = crate::ordered::lookup(
                upstream_created(c, f)->Ok_0.upstreams,
                trimmed(f.upstream_name),
            )->0;
            &&& trimmed(f.connect_timeout).len() == 0 ==> u.connect_timeout_ms is None
            &&& trimmed(f.read_timeout).len() == 0 ==> u.read_timeout_ms is None
            &&& trimmed(f.write_timeout).len() == 0 ==> u.write_timeout_ms is None
            &&& eq_ignore_ascii_case(trimmed(f.connect_timeout), "default"@)
                ==> u.connect_timeout_ms is None
            &&& eq_ignore_ascii_case(trimmed(f.read_timeout), "default"@) ==> u.read_timeout_ms
                is None
            &&& eq_ignore_ascii_case(trimmed(f.write_timeout), "default"@) ==> u.write_timeout_ms
                is None
            &&& forall|n: u64| parsed_u64(trimmed(f.connect_timeout)) == Some(n) && n > 0 ==> u.connect_timeout_ms == Some(n)
            &&& forall|n: u64| parsed_u64(trimmed(f.read_timeout)) == Some(n) && n > 0 ==> u.read_timeout_ms == Some(n)
            &&& forall|n: u64| parsed_u64(trimmed(f.write_timeout)) == Some(n) && n > 0 ==> u.write_timeout_ms == Some(n)
        }),
{
    law_created_upstream(c, f);
    match parsed_u64(trimmed(f.connect_timeout)) {
        Some(n) => if n > 0 {
            lemma_plain_number_duration(f.connect_timeout, "connect timeout"@, n);
        },
        None => {},
    }
    match parsed_u64(trimmed(f.read_timeout)) {
        Some(n) => if n > 0 {
            lemma_plain_number_duration(f.read_timeout, "read timeout"@, n);
        },
        None => {},
    }
    match parsed_u64(trimmed(f.write_timeout)) {
        Some(n) => if n > 0 {
            lemma_plain_number_duration(f.write_timeout, "write timeout"@, n);
        },
        None => {},
    }
}

} // verus!
