use lungyam::config::{
    AdminConfig, Config, ConfigError, RouteConfig, RoutePolicies, ServerConfig, UpstreamConfig,
};
use lungyam::lifecycle::{
    begin_activation, begin_rollback, begin_stage, step, LifecycleFailure, LifecycleOutcome,
    LifecyclePhase, LifecycleStep, StorageReply, StorageRequest,
};
use lungyam::ordered::OrderedMap;
use lungyam::revision::{ConfigRevision, RevisionMetadata};
use lungyam::revision_state::RevisionState;

fn config(priority: i32) -> Config {
    let mut upstreams = OrderedMap::new();
    upstreams.insert(
        "api".to_owned(),
        UpstreamConfig {
            endpoints: vec!["127.0.0.1:3000".to_owned()],
            connect_timeout_ms: None,
            read_timeout_ms: None,
            write_timeout_ms: None,
            health_check_interval_seconds: 5,
        },
    );
    Config {
        server: ServerConfig {
            listen: "127.0.0.1:8080".to_owned(),
        },
        admin: AdminConfig {
            enabled: true,
            listen: "127.0.0.1:9090".to_owned(),
            read_only: false,
        },
        upstreams,
        routes: vec![RouteConfig {
            name: "api".to_owned(),
            host: None,
            path: "/api".to_owned(),
            methods: vec!["GET".to_owned()],
            upstream: "api".to_owned(),
            priority,
            policies: RoutePolicies::default(),
        }],
    }
}

fn metadata(revision: u64, reason: Option<&str>) -> RevisionMetadata {
    RevisionMetadata {
        revision,
        created_at_unix_seconds: 50,
        actor: Some("test".to_owned()),
        reason: reason.map(ToOwned::to_owned),
    }
}

fn expect_request(next: LifecycleStep) -> (LifecyclePhase, StorageRequest) {
    match next {
        LifecycleStep::Request(phase, request) => (phase, request),
        LifecycleStep::Finished(outcome) => panic!("unexpected outcome {outcome:?}"),
    }
}

#[test]
fn staging_creates_a_revision_and_marks_it_pending_without_touching_the_active_config() {
    let (phase, request) =
        expect_request(begin_stage(config(50), Some("test".to_owned()), None));
    assert!(matches!(request, StorageRequest::CreateRevision { .. }));
    let (phase, request) = expect_request(step(phase, StorageReply::Created(metadata(2, None))));
    assert!(matches!(request, StorageRequest::LoadState));
    let state = RevisionState {
        active_revision: Some(1),
        pending_revision: None,
    };
    let (phase, request) = expect_request(step(phase, StorageReply::State(state)));
    match request {
        StorageRequest::SaveState(saved) => {
            assert_eq!(saved.active_revision, Some(1));
            assert_eq!(saved.pending_revision, Some(2));
        }
        other => panic!("unexpected request {other:?}"),
    }
    match step(phase, StorageReply::Done) {
        LifecycleStep::Finished(LifecycleOutcome::Staged(staged)) => assert_eq!(staged.revision, 2),
        other => panic!("unexpected step {other:?}"),
    }
}

#[test]
fn invalid_candidates_are_never_stored() {
    let mut invalid = config(0);
    invalid.routes[0].path = "missing-slash".to_owned();
    match begin_stage(invalid, None, None) {
        LifecycleStep::Finished(LifecycleOutcome::Failed(LifecycleFailure::Invalid(
            ConfigError::Validation(message),
        ))) => assert_eq!(message, "route 'api' path must start with '/'"),
        other => panic!("unexpected step {other:?}"),
    }
}

#[test]
fn a_failed_revision_write_fails_staging() {
    let (phase, _) = expect_request(begin_stage(config(0), None, None));
    assert!(matches!(
        step(phase, StorageReply::Failed),
        LifecycleStep::Finished(LifecycleOutcome::Failed(LifecycleFailure::RevisionStore))
    ));
}

fn activate_until_state_save() -> (LifecyclePhase, StorageRequest) {
    let (phase, _) = expect_request(begin_activation());
    let pending = RevisionState {
        active_revision: Some(1),
        pending_revision: Some(2),
    };
    let (phase, request) = expect_request(step(phase, StorageReply::State(pending)));
    assert!(matches!(request, StorageRequest::LoadRevision(2)));
    let stored = ConfigRevision {
        metadata: metadata(2, None),
        config: config(50),
    };
    let (phase, request) = expect_request(step(phase, StorageReply::Revision(stored)));
    assert!(matches!(request, StorageRequest::LoadActive));
    let (phase, request) = expect_request(step(phase, StorageReply::Active(config(0))));
    match &request {
        StorageRequest::SaveActive(written) => assert_eq!(written.routes[0].priority, 50),
        other => panic!("unexpected request {other:?}"),
    }
    let (phase, request) = expect_request(step(phase, StorageReply::Done));
    match &request {
        StorageRequest::SaveState(saved) => {
            assert_eq!(saved.active_revision, Some(2));
            assert_eq!(saved.pending_revision, None);
        }
        other => panic!("unexpected request {other:?}"),
    }
    (phase, request)
}

#[test]
fn activation_writes_the_revision_then_the_state() {
    let (phase, _) = activate_until_state_save();
    match step(phase, StorageReply::Done) {
        LifecycleStep::Finished(LifecycleOutcome::Activated(result)) => {
            assert_eq!(result.revision, 2);
            assert!(!result.restart_required);
            assert_eq!(result.diff.routes_changed, vec!["api".to_owned()]);
        }
        other => panic!("unexpected step {other:?}"),
    }
}

#[test]
fn a_failed_state_write_restores_the_previous_active_config() {
    let (phase, _) = activate_until_state_save();
    let (phase, request) = expect_request(step(phase, StorageReply::Failed));
    match &request {
        StorageRequest::SaveActive(restored) => assert_eq!(restored.routes[0].priority, 0),
        other => panic!("unexpected request {other:?}"),
    }
    assert!(matches!(
        step(phase, StorageReply::Done),
        LifecycleStep::Finished(LifecycleOutcome::Failed(LifecycleFailure::StateStore))
    ));

    let (phase, _) = activate_until_state_save();
    let (phase, _) = expect_request(step(phase, StorageReply::Failed));
    assert!(matches!(
        step(phase, StorageReply::Failed),
        LifecycleStep::Finished(LifecycleOutcome::Failed(LifecycleFailure::Recovery))
    ));
}

#[test]
fn activation_without_a_pending_revision_fails() {
    let (phase, _) = expect_request(begin_activation());
    assert!(matches!(
        step(phase, StorageReply::State(RevisionState::default())),
        LifecycleStep::Finished(LifecycleOutcome::Failed(LifecycleFailure::NoPendingRevision))
    ));
}

#[test]
fn rollback_stages_the_old_revision_again_then_activates_it() {
    let (phase, request) = expect_request(begin_rollback(1, Some("test".to_owned()), None));
    assert!(matches!(request, StorageRequest::LoadRevision(1)));
    let stored = ConfigRevision {
        metadata: metadata(1, Some("initial")),
        config: config(0),
    };
    let (phase, request) = expect_request(step(phase, StorageReply::Revision(stored)));
    match &request {
        StorageRequest::CreateRevision { reason, actor, .. } => {
            assert_eq!(reason.as_deref(), Some("rollback to #000001"));
            assert_eq!(actor.as_deref(), Some("test"));
        }
        other => panic!("unexpected request {other:?}"),
    }
    let (phase, _) = expect_request(step(
        phase,
        StorageReply::Created(metadata(3, Some("rollback to #000001"))),
    ));
    let (phase, _) = expect_request(step(phase, StorageReply::State(RevisionState::default())));
    let (_, request) = expect_request(step(phase, StorageReply::Done));
    assert!(matches!(request, StorageRequest::LoadRevision(3)));
}
