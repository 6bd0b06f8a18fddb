use lungyam::admin::mutation::{revision_label_string, stage_outcome_reply, StagePlan};
use lungyam::admin::revision_actions::{
    activation_refusal, after_activation, after_live_apply, ActivationStep,
};
use lungyam::admin::route_edits::{
    plan_route_delete, plan_route_update, render_added_headers, render_edit, update_validation,
    DeleteRouteForm, UpdateRouteForm,
};
use lungyam::admin::route_forms::{parse_header_transform, RouteForm};
use lungyam::admin::route_stage::{plan_route_stage, StageRouteForm};
use lungyam::admin::security::CsrfToken;
use lungyam::admin::upstream_stage::{
    plan_upstream_stage, upstream_stage_outcome, StageUpstreamCreateForm, UpstreamStagePlan,
};
use lungyam::admin::views::{
    diff_error_view, diff_view, format_list, revision_label, revision_view, revisions_page,
    unavailable_revisions_page, upstreams_page,
};
use lungyam::config::{
    AdminConfig, Config, HeaderTransform, RateLimitConfig, RouteConfig, RoutePolicies,
    ServerConfig, UpstreamConfig,
};
use lungyam::config_diff::ConfigDiff;
use lungyam::ordered::OrderedMap;
use lungyam::revision::RevisionMetadata;
use lungyam::revision_state::RevisionState;
use lungyam::runtime::EndpointHealth;

fn token() -> CsrfToken {
    CsrfToken::generate().expect("system entropy")
}

fn config(read_only: bool) -> Config {
    let mut upstreams = OrderedMap::new();
    upstreams.insert(
        "api".to_owned(),
        UpstreamConfig {
            endpoints: vec!["127.0.0.1:3000".to_owned(), "127.0.0.1:3001".to_owned()],
            connect_timeout_ms: Some(2000),
            read_timeout_ms: None,
            write_timeout_ms: None,
            health_check_interval_seconds: 5,
        },
    );
    upstreams.insert(
        "backup".to_owned(),
        UpstreamConfig {
            endpoints: vec!["127.0.0.1:4000".to_owned()],
            connect_timeout_ms: None,
            read_timeout_ms: None,
            write_timeout_ms: None,
            health_check_interval_seconds: 7,
        },
    );
    let mut request_headers = HeaderTransform::default();
    request_headers.add.insert("x-b".to_owned(), "2".to_owned());
    request_headers.add.insert("x-a".to_owned(), "1".to_owned());
    request_headers.remove = vec!["x-gone".to_owned(), "x-old".to_owned()];
    Config {
        server: ServerConfig {
            listen: "127.0.0.1:8080".to_owned(),
        },
        admin: AdminConfig {
            enabled: true,
            listen: "127.0.0.1:9090".to_owned(),
            read_only,
        },
        upstreams,
        routes: vec![RouteConfig {
            name: "api-route".to_owned(),
            host: Some("api.test".to_owned()),
            path: "/api".to_owned(),
            methods: vec!["GET".to_owned(), "POST".to_owned()],
            upstream: "api".to_owned(),
            priority: 3,
            policies: RoutePolicies {
                request_headers,
                response_headers: HeaderTransform::default(),
                rate_limit: Some(RateLimitConfig {
                    requests: 10,
                    window_seconds: 30,
                }),
                max_request_body_bytes: Some(1024),
            },
        }],
    }
}

fn form(csrf_token: &str, name: &str, path: &str) -> RouteForm {
    RouteForm {
        csrf_token: csrf_token.to_owned(),
        name: name.to_owned(),
        host: String::new(),
        path: path.to_owned(),
        methods: "GET".to_owned(),
        upstream: "api".to_owned(),
        priority: String::new(),
        request_add_headers: String::new(),
        request_remove_headers: String::new(),
        response_add_headers: String::new(),
        response_remove_headers: String::new(),
        rate_limit_requests: String::new(),
        rate_limit_window_seconds: String::new(),
        max_request_body_bytes: String::new(),
    }
}

fn reply_of(plan: StagePlan) -> lungyam::admin::mutation::StageReply {
    match plan {
        StagePlan::Reply(reply) => reply,
        StagePlan::Stage { .. } => panic!("expected a reply"),
    }
}

#[test]
fn staging_refusals_come_in_order() {
    let t = token();
    let stage = |config: &Config, writes: bool, submitted: &str, has_path: bool| {
        reply_of(plan_route_stage(
            config,
            writes,
            &t,
            has_path,
            StageRouteForm {
                operation: "create".to_owned(),
                original_name: String::new(),
                route: form(submitted, " new ", "/new"),
            },
        ))
    };
    let read_only = stage(&config(true), true, t.expose(), true);
    assert_eq!(read_only.status, 403);
    assert_eq!(read_only.message, "Admin is configured as read-only.");
    assert_eq!(read_only.route_name, "new");
    let no_writes = stage(&config(false), false, t.expose(), true);
    assert_eq!(
        no_writes.message,
        "Admin writes require a loopback listener until authentication is configured."
    );
    let bad_token = stage(&config(false), true, "wrong-token", true);
    assert_eq!((bad_token.status, bad_token.message.as_str()), (403, "CSRF token validation failed."));
    let no_path = stage(&config(false), true, t.expose(), false);
    assert_eq!(no_path.status, 503);
}

#[test]
fn staging_a_create_records_its_reason() {
    let t = token();
    match plan_route_stage(
        &config(false),
        true,
        &t,
        true,
        StageRouteForm {
            operation: " create ".to_owned(),
            original_name: String::new(),
            route: form(t.expose(), " staged-route ", "/staged"),
        },
    ) {
        StagePlan::Stage {
            route_name,
            candidate,
            reason,
        } => {
            assert_eq!(route_name, "staged-route");
            assert_eq!(reason, "stage route 'staged-route'");
            assert!(candidate.validate().is_ok());
            assert_eq!(candidate.routes.len(), 2);
            assert_eq!(candidate.routes[1].name, "staged-route");
        }
        StagePlan::Reply(reply) => panic!("unexpected reply {reply:?}"),
    }
}

#[test]
fn staging_update_and_delete_name_the_original_route() {
    let t = token();
    match plan_route_stage(
        &config(false),
        true,
        &t,
        true,
        StageRouteForm {
            operation: "update".to_owned(),
            original_name: " api-route ".to_owned(),
            route: form(t.expose(), "api-v2", "/v2"),
        },
    ) {
        StagePlan::Stage { reason, candidate, .. } => {
            assert_eq!(reason, "stage route update 'api-route' -> 'api-v2'");
            assert_eq!(candidate.routes[0].name, "api-v2");
        }
        StagePlan::Reply(reply) => panic!("unexpected reply {reply:?}"),
    }
    match plan_route_stage(
        &config(false),
        true,
        &t,
        true,
        StageRouteForm {
            operation: "delete".to_owned(),
            original_name: " api-route ".to_owned(),
            route: form(t.expose(), "ignored", "/ignored"),
        },
    ) {
        StagePlan::Stage {
            route_name,
            reason,
            candidate,
        } => {
            assert_eq!(route_name, "api-route");
            assert_eq!(reason, "stage route delete 'api-route'");
            assert!(candidate.routes.is_empty());
        }
        StagePlan::Reply(reply) => panic!("unexpected reply {reply:?}"),
    }
    let unknown = reply_of(plan_route_stage(
        &config(false),
        true,
        &t,
        true,
        StageRouteForm {
            operation: "rename".to_owned(),
            original_name: String::new(),
            route: form(t.expose(), "x", "/x"),
        },
    ));
    assert_eq!(unknown.status, 422);
    assert_eq!(unknown.message, "unsupported route mutation operation 'rename'");
}

#[test]
fn staging_answers_show_the_revision_label() {
    let staged = stage_outcome_reply("api", Ok(1));
    assert!(staged.success);
    assert_eq!(staged.status, 200);
    assert_eq!(staged.revision, "#000001");
    let failed = stage_outcome_reply("api", Err("disk full".to_owned()));
    assert_eq!((failed.status, failed.success), (500, false));
    assert_eq!(failed.message, "disk full");
    assert_eq!(revision_label_string(1_234_567), "#1234567");
}

#[test]
fn editor_plans_update_and_delete() {
    let t = token();
    match plan_route_update(
        &config(false),
        true,
        &t,
        true,
        UpdateRouteForm {
            original_name: "api-route".to_owned(),
            route: form(t.expose(), " api-v2 ", "/v2"),
        },
    ) {
        StagePlan::Stage {
            route_name, reason, ..
        } => {
            assert_eq!(route_name, "api-v2");
            assert_eq!(reason, "stage route update 'api-route' -> 'api-v2'");
        }
        StagePlan::Reply(reply) => panic!("unexpected reply {reply:?}"),
    }
    let missing = reply_of(plan_route_delete(
        &config(false),
        true,
        &t,
        true,
        DeleteRouteForm {
            csrf_token: t.expose().to_owned(),
            name: " missing ".to_owned(),
        },
    ));
    assert_eq!(missing.status, 422);
    assert_eq!(missing.message, "route 'missing' was not found");
    let view = update_validation(
        &config(false),
        UpdateRouteForm {
            original_name: "api-route".to_owned(),
            route: form("", "api-route", "no-slash"),
        },
    );
    assert!(!view.valid);
    assert_eq!(view.message, "invalid configuration: route 'api-route' path must start with '/'");
}

#[test]
fn edit_page_shows_the_route_as_form_text() {
    let t = token();
    let view = render_edit(&config(false), "api-route", &t, true).expect("route exists");
    assert_eq!(view.original_name, "api-route");
    assert_eq!(view.host, "api.test");
    assert_eq!(view.methods, "GET, POST");
    assert_eq!(view.priority, 3);
    assert_eq!(view.upstreams.len(), 2);
    assert!(view.upstreams[0].selected);
    assert!(!view.upstreams[1].selected);
    assert_eq!(view.request_add_headers, "x-a: 1\nx-b: 2");
    assert_eq!(view.request_remove_headers, "x-gone, x-old");
    assert_eq!(view.response_add_headers, "");
    assert_eq!(view.rate_limit_requests, "10");
    assert_eq!(view.rate_limit_window_seconds, "30");
    assert_eq!(view.max_request_body_bytes, "1024");
    assert_eq!(view.csrf_token, t.expose());
    assert_eq!(
        render_edit(&config(false), "nope", &t, true).unwrap_err(),
        "route 'nope' was not found"
    );
    assert_eq!(render_added_headers(&HeaderTransform::default()), "");
}

#[test]
fn upstream_staging_refuses_and_stages() {
    let t = token();
    let form = StageUpstreamCreateForm {
        csrf_token: t.expose().to_owned(),
        upstream_name: " canary ".to_owned(),
        endpoints: "127.0.0.1:4000\n127.0.0.1:4001".to_owned(),
        connect_timeout: "2500".to_owned(),
        read_timeout: "10000".to_owned(),
        write_timeout: "15000".to_owned(),
        health_check_interval: "7".to_owned(),
    };
    match plan_upstream_stage(&config(true), true, &t, true, &form) {
        UpstreamStagePlan::Reply(reply) => {
            assert_eq!(reply.status, 403);
            assert_eq!(reply.log_message, "Admin is configured as read-only.");
            assert!(reply.html.contains("Upstream was not staged"));
        }
        UpstreamStagePlan::Stage { .. } => panic!("read-only admin must refuse"),
    }
    match plan_upstream_stage(&config(false), true, &t, true, &form) {
        UpstreamStagePlan::Stage { candidate, reason } => {
            assert_eq!(reason, "stage upstream create 'canary'");
            assert_eq!(candidate.upstreams.len(), 3);
        }
        UpstreamStagePlan::Reply(reply) => panic!("unexpected reply {reply:?}"),
    }
    let staged = upstream_stage_outcome(Some(1));
    assert_eq!(staged.status, 200);
    assert!(staged.html.contains("Revision #000001 is ready for review"));
    let failed = upstream_stage_outcome(None);
    assert_eq!(failed.status, 500);
    assert_eq!(failed.log_message, "The pending revision could not be created.");
}

#[test]
fn activation_answers_follow_the_outcome() {
    let t = token();
    let refused = activation_refusal(&config(false).admin, false, &t, t.expose(), true)
        .expect("writes disabled");
    assert_eq!(refused.status, 403);
    assert!(refused.html.contains("Admin writes require a loopback listener."));
    assert!(activation_refusal(&config(false).admin, true, &t, t.expose(), true).is_none());

    match after_activation(None) {
        ActivationStep::Reply(reply) => {
            assert_eq!(reply.status, 422);
            assert!(reply.html.contains("Pending revision activation failed."));
        }
        ActivationStep::ApplyLive(_) => panic!("failed activation cannot apply"),
    }
    match after_activation(Some((2, true))) {
        ActivationStep::Reply(reply) => {
            assert_eq!(reply.status, 200);
            assert!(reply.html.contains("Revision #000002 activated; restart required"));
        }
        ActivationStep::ApplyLive(_) => panic!("structural revisions are not applied live"),
    }
    assert_eq!(after_activation(Some((2, false))), ActivationStep::ApplyLive(2));
    let live = after_live_apply(2, true);
    assert!(live.html.contains("activated and applied live"));
    let broken = after_live_apply(2, false);
    assert_eq!(broken.status, 500);
    assert!(broken.html.contains("live apply failed"));
}

#[test]
fn upstreams_page_reports_health_and_timeouts() {
    let health = vec![
        EndpointHealth {
            upstream: "api".to_owned(),
            endpoint: "127.0.0.1:3000".to_owned(),
            healthy: true,
        },
        EndpointHealth {
            upstream: "api".to_owned(),
            endpoint: "127.0.0.1:3001".to_owned(),
            healthy: false,
        },
    ];
    let page = upstreams_page(&config(false), &health);
    assert_eq!(page.upstream_count, 2);
    assert_eq!(page.endpoint_count, 3);
    let api = &page.upstreams[0];
    assert_eq!(api.name, "api");
    assert_eq!(api.endpoints[0].status, "Healthy");
    assert_eq!(api.endpoints[1].status, "Unhealthy");
    assert_eq!(api.connect_timeout, "2000 ms");
    assert_eq!(api.read_timeout, "Default");
    assert_eq!(api.health_check_interval, "5 s");
    let backup = &page.upstreams[1];
    assert_eq!(backup.endpoints[0].status_class, "health-unhealthy");
    assert_eq!(backup.health_check_interval, "7 s");
}

#[test]
fn revisions_page_marks_active_and_pending() {
    let t = token();
    let listed = vec![
        RevisionMetadata {
            revision: 2,
            created_at_unix_seconds: 50,
            actor: Some("admin-web".to_owned()),
            reason: None,
        },
        RevisionMetadata {
            revision: 1,
            created_at_unix_seconds: 40,
            actor: None,
            reason: Some("initial".to_owned()),
        },
    ];
    let state = RevisionState {
        active_revision: Some(1),
        pending_revision: Some(2),
    };
    let page = revisions_page(&state, &listed, true, &t);
    assert!(page.available);
    assert_eq!(page.active_revision, "#000001");
    assert_eq!(page.pending_revision, "#000002");
    assert!(page.has_pending && page.can_diff);
    assert_eq!(page.revisions[0].status, "Pending");
    assert_eq!(page.revisions[0].reason, "\u{2014}");
    assert_eq!(page.revisions[1].status, "Active");
    assert_eq!(page.revisions[1].created_at, "40 (Unix)");
    assert_eq!(
        page.message,
        "Immutable snapshots stored beside the active configuration."
    );
    let empty = revisions_page(&RevisionState::default(), &Vec::new(), false, &t);
    assert_eq!(empty.message, "No persisted revisions yet.");
    assert_eq!(empty.active_revision, "Not set");
    assert!(!empty.can_diff);
    let unavailable = unavailable_revisions_page(&t);
    assert!(!unavailable.available && !unavailable.writes_enabled);
    let stored = revision_view(&listed[0], None, None);
    assert_eq!(stored.status, "Stored");
    assert_eq!(stored.label, "#000002");
    assert_eq!(revision_label(None), "Not set");
}

#[test]
fn diff_fragment_describes_the_change() {
    let before = config(false);
    let mut after = config(false);
    after.routes[0].priority = 50;
    let route_only = diff_view(1, 2, &ConfigDiff::between(&before, &after));
    assert!(route_only.valid && !route_only.empty && !route_only.restart_required);
    assert_eq!(route_only.routes_changed, "api-route");
    assert_eq!(route_only.upstreams_added, "\u{2014}");
    assert_eq!(route_only.from_revision, "#000001");
    assert_eq!(
        route_only.message,
        "This route-only diff can be applied to the running proxy without a restart."
    );
    let same = diff_view(1, 1, &ConfigDiff::between(&before, &before));
    assert!(same.empty);
    let error = diff_error_view("configuration revision 9 was not found");
    assert!(!error.valid);
    assert_eq!(error.message, "configuration revision 9 was not found");
    assert_eq!(
        format_list(&vec!["a".to_owned(), "b".to_owned()]),
        "a, b"
    );
}

#[test]
fn rendered_added_headers_read_back_as_the_same_headers() {
    let mut add = OrderedMap::new();
    add.insert("x-empty".to_owned(), String::new());
    add.insert("x-b".to_owned(), "two words".to_owned());
    add.insert("x-a".to_owned(), "1".to_owned());
    let transform = HeaderTransform {
        add,
        remove: vec!["x-old".to_owned()],
    };
    let text = render_added_headers(&transform);
    assert_eq!(text, "x-a: 1\nx-b: two words\nx-empty: ");
    let read = parse_header_transform(&text, "", "request").expect("rendered headers read back");
    assert_eq!(read.add, transform.add);
    assert!(read.remove.is_empty());
    let empty = parse_header_transform(&render_added_headers(&HeaderTransform::default()), "", "request")
        .expect("no headers read back");
    assert_eq!(empty, HeaderTransform::default());
}
