use lungyam::config::{
    AdminConfig, Config, RouteConfig, RoutePolicies, ServerConfig, UpstreamConfig,
};
use lungyam::lifecycle::{check_stage, pending_revision, plan_activation, LifecycleRefusal};
use lungyam::ordered::OrderedMap;
use lungyam::revision::{
    format_revision, newest_first, next_revision, parse_revision, rollback_reason,
    RevisionMetadata,
};
use lungyam::revision_state::RevisionState;

fn config() -> Config {
    let mut upstreams = OrderedMap::new();
    upstreams.insert(
        "api".to_owned(),
        UpstreamConfig {
            endpoints: vec!["127.0.0.1:3000".to_owned()],
            connect_timeout_ms: None,
            read_timeout_ms: None,
            write_timeout_ms: None,
            health_check_interval_seconds: 5,
        },
    );
    Config {
        server: ServerConfig {
            listen: "127.0.0.1:8080".to_owned(),
        },
        admin: AdminConfig {
            enabled: true,
            listen: "127.0.0.1:9090".to_owned(),
            read_only: false,
        },
        upstreams,
        routes: vec![RouteConfig {
            name: "api".to_owned(),
            host: None,
            path: "/api".to_owned(),
            methods: vec!["GET".to_owned()],
            upstream: "api".to_owned(),
            priority: 0,
            policies: RoutePolicies::default(),
        }],
    }
}

fn metadata(revision: u64) -> RevisionMetadata {
    RevisionMetadata {
        revision,
        created_at_unix_seconds: 1_700_000_000 + revision,
        actor: None,
        reason: None,
    }
}

#[test]
fn revision_names_are_zero_padded_to_six_digits() {
    assert_eq!(format_revision(1), "000001");
    assert_eq!(format_revision(42), "000042");
    assert_eq!(format_revision(1_234_567), "1234567");
}

#[test]
fn revision_names_parse_as_unsigned_numbers() {
    assert_eq!(parse_revision("000001"), Some(1));
    assert_eq!(parse_revision("+7"), Some(7));
    assert_eq!(parse_revision("state.yaml"), None);
    assert_eq!(parse_revision(".000002.tmp-1-1"), None);
    assert_eq!(parse_revision(""), None);
}

#[test]
fn next_revision_follows_the_highest_existing_number() {
    let names = vec![
        "000002".to_owned(),
        "state.yaml".to_owned(),
        "000010".to_owned(),
        "000003".to_owned(),
    ];
    assert_eq!(next_revision(&names), Some(11));
    assert_eq!(next_revision(&Vec::new()), Some(1));
    assert_eq!(next_revision(&vec![u64::MAX.to_string()]), None);
}

#[test]
fn history_is_listed_newest_first() {
    let listed = newest_first(vec![metadata(2), metadata(5), metadata(1), metadata(3)]);
    let order: Vec<u64> = listed.iter().map(|m| m.revision).collect();
    assert_eq!(order, vec![5, 3, 2, 1]);
}

#[test]
fn equal_revision_numbers_keep_their_listing_order() {
    let mut first = metadata(4);
    first.actor = Some("first".to_owned());
    let mut second = metadata(4);
    second.actor = Some("second".to_owned());
    let listed = newest_first(vec![first, metadata(9), second]);
    assert_eq!(listed[0].revision, 9);
    assert_eq!(listed[1].actor.as_deref(), Some("first"));
    assert_eq!(listed[2].actor.as_deref(), Some("second"));
}

#[test]
fn rollback_reason_defaults_to_the_target_revision() {
    assert_eq!(rollback_reason(None, 1), Some("rollback to #000001".to_owned()));
    assert_eq!(
        rollback_reason(Some("manual".to_owned()), 1),
        Some("manual".to_owned())
    );
}

#[test]
fn staging_marks_pending_and_activation_clears_it() {
    let state = RevisionState {
        active_revision: Some(1),
        pending_revision: None,
    };
    let staged = state.staged(2);
    assert_eq!(staged.active_revision, Some(1));
    assert_eq!(staged.pending_revision, Some(2));
    assert_eq!(staged.references(), vec![1, 2]);
    let activated = RevisionState::activated(2);
    assert_eq!(activated.active_revision, Some(2));
    assert_eq!(activated.pending_revision, None);
    assert_eq!(activated.references(), vec![2]);
    assert!(RevisionState::default().references().is_empty());
}

#[test]
fn activation_needs_a_pending_revision() {
    let state = RevisionState::default();
    assert_eq!(pending_revision(&state), Err(LifecycleRefusal::NoPendingRevision));
    assert_eq!(pending_revision(&state.staged(3)), Ok(3));
}

#[test]
fn route_only_activation_does_not_require_restart() {
    let previous = config();
    let mut candidate = config();
    candidate.routes[0].priority = 50;
    let result = plan_activation(&previous, &candidate, 2).expect("valid candidate");
    assert_eq!(result.revision, 2);
    assert_eq!(result.diff.routes_changed, vec!["api".to_owned()]);
    assert!(!result.restart_required);
}

#[test]
fn upstream_activation_requires_restart() {
    let previous = config();
    let mut candidate = config();
    candidate.upstreams.insert(
        "api".to_owned(),
        UpstreamConfig {
            endpoints: vec!["127.0.0.1:3000".to_owned()],
            connect_timeout_ms: Some(5000),
            read_timeout_ms: None,
            write_timeout_ms: None,
            health_check_interval_seconds: 5,
        },
    );
    let result = plan_activation(&previous, &candidate, 3).expect("valid candidate");
    assert_eq!(result.diff.upstreams_changed, vec!["api".to_owned()]);
    assert!(result.restart_required);
}

#[test]
fn invalid_candidates_are_refused_before_staging_or_activation() {
    let mut invalid = config();
    invalid.routes[0].path = "missing-slash".to_owned();
    let expected = "route 'api' path must start with '/'".to_owned();
    match check_stage(&invalid) {
        Err(LifecycleRefusal::Invalid(lungyam::config::ConfigError::Validation(m))) => {
            assert_eq!(m, expected)
        }
        other => panic!("unexpected {other:?}"),
    }
    match plan_activation(&config(), &invalid, 4) {
        Err(LifecycleRefusal::Invalid(lungyam::config::ConfigError::Validation(m))) => {
            assert_eq!(m, expected)
        }
        other => panic!("unexpected {other:?}"),
    }
    assert!(check_stage(&config()).is_ok());
}
