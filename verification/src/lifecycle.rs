//! The decisions of the configuration lifecycle: staging validates and
//! marks a revision pending; activation validates, compares with the active
//! configuration, and records the new state.

use vstd::prelude::*;

use crate::config::{config_problem, opt_string_view, Config, ConfigError};
use crate::config_diff::{diff_of, needs_restart, ConfigDiff};
use crate::revision::{rollback_reason, rollback_reason_text, ConfigRevision, RevisionMetadata};
use crate::revision_state::RevisionState;

verus! {

/// What activating a revision did.
#[derive(Clone, Debug, PartialEq, Eq)]
pub struct ActivationResult {
    pub revision: u64,
    pub diff: ConfigDiff,
    pub restart_required: bool,
}

/// Why a lifecycle step stops before any write.
#[derive(Clone, Debug, PartialEq, Eq)]
pub enum LifecycleRefusal {
    /// The candidate configuration breaks a rule.
    Invalid(ConfigError),
    /// Activation was asked for with nothing pending.
    NoPendingRevision,
}

/// Checks a candidate before it is stored as a revision.
pub fn check_stage(candidate: &Config) -> (r: Result<(), LifecycleRefusal>)
    ensures
        match config_problem(candidate@) {
            Some(m) => r matches Err(LifecycleRefusal::Invalid(ConfigError::Validation(s))) && s@
                == m,
            None => r is Ok,
        },
{
    match candidate.validate() {
        Ok(()) => Ok(()),
        Err(e) => Err(LifecycleRefusal::Invalid(e)),
    }
}

/// The revision that activation takes: the pending one.
pub fn pending_revision(state: &RevisionState) -> (r: Result<u64, LifecycleRefusal>)
    ensures
        match state.pending_revision {
            Some(p) => r == Ok::<u64, LifecycleRefusal>(p),
            None => r == Err::<u64, LifecycleRefusal>(LifecycleRefusal::NoPendingRevision),
        },
{
    match state.pending_revision {
        Some(p) => Ok(p),
        None => Err(LifecycleRefusal::NoPendingRevision),
    }
}

/// What activating `candidate` as `revision` over the `previous` active
/// configuration amounts to, once the candidate is known to be valid.
pub fn plan_activation(previous: &Config, candidate: &Config, revision: u64) -> (r: Result<
    ActivationResult,
    LifecycleRefusal,
>)
    ensures
        match config_problem(candidate@) {
            Some(m) => r matches Err(LifecycleRefusal::Invalid(ConfigError::Validation(s))) && s@
                == m,
            None => r matches Ok(a) && a.revision == revision && a.diff@ == diff_of(
                previous@,
                candidate@,
            ) && a.restart_required == needs_restart(a.diff@),
        },
{
    match candidate.validate() {
        Ok(()) => {},
        Err(e) => {
            return Err(LifecycleRefusal::Invalid(e));
        },
    }
    let diff = ConfigDiff::between(previous, candidate);
    let restart_required = diff.restart_required();
    Ok(ActivationResult { revision, diff, restart_required })
}

} // verus!

verus! {

// ---------------------------------------------------------------------------
// The lifecycle as a sequence of storage requests
// ---------------------------------------------------------------------------

/// A read or write that the lifecycle asks of the storage.
#[derive(Debug)]
pub enum StorageRequest {
    /// Read the revision state.
    LoadState,
    /// Replace the revision state.
    SaveState(RevisionState),
    /// Store a new revision of `candidate`.
    CreateRevision { candidate: Config, actor: Option<String>, reason: Option<String> },
    /// Read a stored revision.
    LoadRevision(u64),
    /// Read the active configuration.
    LoadActive,
    /// Replace the active configuration.
    SaveActive(Config),
}

/// What the storage reports for a request.
#[derive(Debug)]
pub enum StorageReply {
    State(RevisionState),
    Created(RevisionMetadata),
    Revision(ConfigRevision),
    Active(Config),
    /// A write succeeded.
    Done,
    /// The request failed; the storage keeps its error.
    Failed,
}

/// Why a lifecycle operation failed.
#[derive(Clone, Debug, PartialEq, Eq)]
pub enum LifecycleFailure {
    /// The configuration breaks a rule.
    Invalid(ConfigError),
    /// Reading or writing the active configuration failed.
    ActiveStore,
    /// Creating or reading a revision failed.
    RevisionStore,
    /// Reading or writing the revision state failed.
    StateStore,
    /// Activation was asked for with nothing pending.
    NoPendingRevision,
    /// The state write failed, and so did restoring the previous active
    /// configuration.
    Recovery,
}

/// How a lifecycle operation ended.
#[derive(Debug)]
pub enum LifecycleOutcome {
    Staged(RevisionMetadata),
    Activated(ActivationResult),
    Failed(LifecycleFailure),
}

/// Where a lifecycle operation stands while it waits for the storage.
#[derive(Debug)]
pub enum LifecyclePhase {
    /// Waiting for a new revision; activate it afterwards when asked.
    Creating { activate_after: bool },
    /// Waiting for the state, to mark the new revision pending.
    LoadingStateForStage { metadata: RevisionMetadata, activate_after: bool },
    /// Waiting for the state that marks the new revision pending.
    SavingStagedState { metadata: RevisionMetadata, activate_after: bool },
    /// Waiting for the state, to find the pending revision.
    LoadingPendingState,
    /// Waiting for the revision to activate.
    LoadingRevision { revision: u64 },
    /// Waiting for the active configuration that the revision replaces.
    LoadingActive { revision: u64, candidate: Config },
    /// Waiting for the revision to become the active configuration.
    SavingActive { result: ActivationResult, previous: Config },
    /// Waiting for the state that records the activation.
    SavingActivatedState { result: ActivationResult, previous: Config },
    /// Waiting for the previous active configuration to be put back.
    Restoring,
    /// Waiting for the revision that a rollback returns to.
    LoadingHistorical { revision: u64, actor: Option<String>, reason: Option<String> },
}

/// The next thing to do: a storage request, resumed in the given phase, or
/// the end of the operation.
#[derive(Debug)]
pub enum LifecycleStep {
    Request(LifecyclePhase, StorageRequest),
    Finished(LifecycleOutcome),
}

/// The phases of staging alone, before any activation.
pub open spec fn staging_phase(phase: LifecyclePhase) -> bool {
    ||| phase matches LifecyclePhase::Creating { activate_after: false }
    ||| phase matches LifecyclePhase::LoadingStateForStage { activate_after: false, .. }
    ||| phase matches LifecyclePhase::SavingStagedState { activate_after: false, .. }
}

/// The step asks to replace the active configuration.
pub open spec fn writes_active(step: LifecycleStep) -> bool {
    step matches LifecycleStep::Request(_, StorageRequest::SaveActive(_))
}

/// Starts staging `candidate`: it must pass validation before any revision
/// is written.
pub fn begin_stage(candidate: Config, actor: Option<String>, reason: Option<String>) -> (r:
    LifecycleStep)
    ensures
        match config_problem(candidate@) {
            Some(m) => r matches LifecycleStep::Finished(
                LifecycleOutcome::Failed(LifecycleFailure::Invalid(ConfigError::Validation(s))),
            ) && s@ == m,
            None => r matches LifecycleStep::Request(
                LifecyclePhase::Creating { activate_after: false },
                StorageRequest::CreateRevision { candidate: c, actor: a, reason: w },
            ) && c == candidate && a == actor && w == reason,
        },
{
    stage_with(candidate, actor, reason, false)
}

fn stage_with(candidate: Config, actor: Option<String>, reason: Option<String>, activate_after: bool) -> (r:
    LifecycleStep)
    ensures
        match config_problem(candidate@) {
            Some(m) => r matches LifecycleStep::Finished(
                LifecycleOutcome::Failed(LifecycleFailure::Invalid(ConfigError::Validation(s))),
            ) && s@ == m,
            None => r matches LifecycleStep::Request(
                LifecyclePhase::Creating { activate_after: after },
                StorageRequest::CreateRevision { candidate: c, actor: a, reason: w },
            ) && after == activate_after && c == candidate && a == actor && w == reason,
        },
{
    match check_stage(&candidate) {
        Err(LifecycleRefusal::Invalid(e)) => LifecycleStep::Finished(
            LifecycleOutcome::Failed(LifecycleFailure::Invalid(e)),
        ),
        Err(LifecycleRefusal::NoPendingRevision) => LifecycleStep::Finished(
            LifecycleOutcome::Failed(LifecycleFailure::NoPendingRevision),
        ),
        Ok(()) => LifecycleStep::Request(
            LifecyclePhase::Creating { activate_after },
            StorageRequest::CreateRevision { candidate, actor, reason },
        ),
    }
}

/// Starts activating the pending revision: the state is read first.
pub fn begin_activation() -> (r: LifecycleStep)
    ensures
        r matches LifecycleStep::Request(LifecyclePhase::LoadingPendingState, StorageRequest::LoadState),
{
    LifecycleStep::Request(LifecyclePhase::LoadingPendingState, StorageRequest::LoadState)
}

/// Starts a rollback to `revision`: the stored revision is read first, then
/// staged again and activated.
pub fn begin_rollback(revision: u64, actor: Option<String>, reason: Option<String>) -> (r:
    LifecycleStep)
    ensures
        r matches LifecycleStep::Request(
            LifecyclePhase::LoadingHistorical { revision: v, actor: a, reason: w },
            StorageRequest::LoadRevision(l),
        ) && v == revision && l == revision && a == actor && w == reason,
{
    LifecycleStep::Request(
        LifecyclePhase::LoadingHistorical { revision, actor, reason },
        StorageRequest::LoadRevision(revision),
    )
}

fn load_revision(revision: u64) -> (r: LifecycleStep)
    ensures
        r matches LifecycleStep::Request(
            LifecyclePhase::LoadingRevision { revision: v },
            StorageRequest::LoadRevision(l),
        ) && v == revision && l == revision,
{
    LifecycleStep::Request(
        LifecyclePhase::LoadingRevision { revision },
        StorageRequest::LoadRevision(revision),
    )
}

fn failed(failure: LifecycleFailure) -> (r: LifecycleStep)
    ensures
        r matches LifecycleStep::Finished(LifecycleOutcome::Failed(f)) && f == failure,
{
    LifecycleStep::Finished(LifecycleOutcome::Failed(failure))
}

/// Takes the storage's reply to the request made in `phase` and decides the
/// next request or the outcome.
///
/// Staging creates the revision, reads the state and writes it back with
/// the revision pending; a failure names the store that failed. Activation
/// reads the pending revision, validates it, reads the active configuration,
/// writes the revision as active and then the state; when that last write
/// fails, the previous active configuration is written back. Staging alone
/// never writes the active configuration.
pub fn step(phase: LifecyclePhase, reply: StorageReply) -> (r: LifecycleStep)
    ensures
        staging_phase(phase) ==> !writes_active(r),
        match phase {
            LifecyclePhase::Creating { activate_after } => match reply {
                StorageReply::Created(m) => r matches LifecycleStep::Request(
                    LifecyclePhase::LoadingStateForStage { metadata, activate_after: a },
                    StorageRequest::LoadState,
                ) && metadata == m && a == activate_after,
                _ => r matches LifecycleStep::Finished(
                    LifecycleOutcome::Failed(LifecycleFailure::RevisionStore),
                ),
            },
            LifecyclePhase::LoadingStateForStage { metadata, activate_after } => match reply {
                StorageReply::State(s) => r matches LifecycleStep::Request(
                    LifecyclePhase::SavingStagedState { metadata: m, activate_after: a },
                    StorageRequest::SaveState(saved),
                ) && m == metadata && a == activate_after && saved.pending_revision == Some(
                    metadata.revision,
                ) && saved.active_revision == s.active_revision,
                _ => r matches LifecycleStep::Finished(
                    LifecycleOutcome::Failed(LifecycleFailure::StateStore),
                ),
            },
            LifecyclePhase::SavingStagedState { metadata, activate_after } => match reply {
                StorageReply::Done => if activate_after {
                    r matches LifecycleStep::Request(
                        LifecyclePhase::LoadingRevision { revision },
                        StorageRequest::LoadRevision(l),
                    ) && revision == metadata.revision && l == metadata.revision
                } else {
                    r matches LifecycleStep::Finished(LifecycleOutcome::Staged(m)) && m == metadata
                },
                _ => r matches LifecycleStep::Finished(
                    LifecycleOutcome::Failed(LifecycleFailure::StateStore),
                ),
            },
            LifecyclePhase::LoadingPendingState => match reply {
                StorageReply::State(s) => match s.pending_revision {
                    Some(p) => r matches LifecycleStep::Request(
                        LifecyclePhase::LoadingRevision { revision },
                        StorageRequest::LoadRevision(l),
                    ) && revision == p && l == p,
                    None => r matches LifecycleStep::Finished(
                        LifecycleOutcome::Failed(LifecycleFailure::NoPendingRevision),
                    ),
                },
                _ => r matches LifecycleStep::Finished(
                    LifecycleOutcome::Failed(LifecycleFailure::StateStore),
                ),
            },
            LifecyclePhase::LoadingRevision { revision } => match reply {
                StorageReply::Revision(stored) => match config_problem(stored.config@) {
                    Some(m) => r matches LifecycleStep::Finished(
                        LifecycleOutcome::Failed(
                            LifecycleFailure::Invalid(ConfigError::Validation(s)),
                        ),
                    ) && s@ == m,
                    None => r matches LifecycleStep::Request(
                        LifecyclePhase::LoadingActive { revision: v, candidate },
                        StorageRequest::LoadActive,
                    ) && v == revision && candidate == stored.config,
                },
                _ => r matches LifecycleStep::Finished(
                    LifecycleOutcome::Failed(LifecycleFailure::RevisionStore),
                ),
            },
            LifecyclePhase::LoadingActive { revision, candidate } => match reply {
                StorageReply::Active(previous) => match config_problem(candidate@) {
                    Some(m) => r matches LifecycleStep::Finished(
                        LifecycleOutcome::Failed(
                            LifecycleFailure::Invalid(ConfigError::Validation(s)),
                        ),
                    ) && s@ == m,
                    None => r matches LifecycleStep::Request(
                        LifecyclePhase::SavingActive { result, previous: p },
                        StorageRequest::SaveActive(written),
                    ) && p == previous && written == candidate && result.revision == revision
                        && result.diff@ == diff_of(previous@, candidate@)
                        && result.restart_required == needs_restart(result.diff@),
                },
                _ => r matches LifecycleStep::Finished(
                    LifecycleOutcome::Failed(LifecycleFailure::ActiveStore),
                ),
            },
            LifecyclePhase::SavingActive { result, previous } => match reply {
                StorageReply::Done => r matches LifecycleStep::Request(
                    LifecyclePhase::SavingActivatedState { result: a, previous: p },
                    StorageRequest::SaveState(saved),
                ) && a == result && p == previous && saved == (RevisionState {
                    active_revision: Some(result.revision),
                    pending_revision: None,
                }),
                _ => r matches LifecycleStep::Finished(
                    LifecycleOutcome::Failed(LifecycleFailure::ActiveStore),
                ),
            },
            LifecyclePhase::SavingActivatedState { result, previous } => match reply {
                StorageReply::Done => r matches LifecycleStep::Finished(
                    LifecycleOutcome::Activated(a),
                ) && a == result,
                _ => r matches LifecycleStep::Request(
                    LifecyclePhase::Restoring,
                    StorageRequest::SaveActive(restored),
                ) && restored == previous,
            },
            LifecyclePhase::Restoring => match reply {
                StorageReply::Done => r matches LifecycleStep::Finished(
                    LifecycleOutcome::Failed(LifecycleFailure::StateStore),
                ),
                _ => r matches LifecycleStep::Finished(
                    LifecycleOutcome::Failed(LifecycleFailure::Recovery),
                ),
            },
            LifecyclePhase::LoadingHistorical { revision, actor, reason } => match reply {
                StorageReply::Revision(stored) => match config_problem(stored.config@) {
                    Some(m) => r matches LifecycleStep::Finished(
                        LifecycleOutcome::Failed(
                            LifecycleFailure::Invalid(ConfigError::Validation(s)),
                        ),
                    ) && s@ == m,
                    None => r matches LifecycleStep::Request(
                        LifecyclePhase::Creating { activate_after: true },
                        StorageRequest::CreateRevision { candidate, actor: a, reason: w },
                    ) && candidate == stored.config && a == actor && opt_string_view(w)
                        == rollback_reason_text(opt_string_view(reason), revision as nat),
                },
                _ => r matches LifecycleStep::Finished(
                    LifecycleOutcome::Failed(LifecycleFailure::RevisionStore),
                ),
            },
        },
{
    match phase {
        LifecyclePhase::Creating { activate_after } => match reply {
            StorageReply::Created(metadata) => LifecycleStep::Request(
                LifecyclePhase::LoadingStateForStage { metadata, activate_after },
                StorageRequest::LoadState,
            ),
            _ => failed(LifecycleFailure::RevisionStore),
        },
        LifecyclePhase::LoadingStateForStage { metadata, activate_after } => match reply {
            StorageReply::State(state) => {
                let saved = state.staged(metadata.revision);
                LifecycleStep::Request(
                    LifecyclePhase::SavingStagedState { metadata, activate_after },
                    StorageRequest::SaveState(saved),
                )
            },
            _ => failed(LifecycleFailure::StateStore),
        },
        LifecyclePhase::SavingStagedState { metadata, activate_after } => match reply {
            StorageReply::Done => {
                if activate_after {
                    load_revision(metadata.revision)
                } else {
                    LifecycleStep::Finished(LifecycleOutcome::Staged(metadata))
                }
            },
            _ => failed(LifecycleFailure::StateStore),
        },
        LifecyclePhase::LoadingPendingState => match reply {
            StorageReply::State(state) => match pending_revision(&state) {
                Ok(revision) => load_revision(revision),
                Err(_) => failed(LifecycleFailure::NoPendingRevision),
            },
            _ => failed(LifecycleFailure::StateStore),
        },
        LifecyclePhase::LoadingRevision { revision } => match reply {
            StorageReply::Revision(stored) => match check_stage(&stored.config) {
                Err(LifecycleRefusal::Invalid(e)) => failed(LifecycleFailure::Invalid(e)),
                Err(LifecycleRefusal::NoPendingRevision) => failed(
                    LifecycleFailure::NoPendingRevision,
                ),
                Ok(()) => LifecycleStep::Request(
                    LifecyclePhase::LoadingActive { revision, candidate: stored.config },
                    StorageRequest::LoadActive,
                ),
            },
            _ => failed(LifecycleFailure::RevisionStore),
        },
        LifecyclePhase::LoadingActive { revision, candidate } => match reply {
            StorageReply::Active(previous) => match plan_activation(&previous, &candidate, revision) {
                Err(LifecycleRefusal::Invalid(e)) => failed(LifecycleFailure::Invalid(e)),
                Err(LifecycleRefusal::NoPendingRevision) => failed(
                    LifecycleFailure::NoPendingRevision,
                ),
                Ok(result) => LifecycleStep::Request(
                    LifecyclePhase::SavingActive { result, previous },
                    StorageRequest::SaveActive(candidate),
                ),
            },
            _ => failed(LifecycleFailure::ActiveStore),
        },
        LifecyclePhase::SavingActive { result, previous } => match reply {
            StorageReply::Done => {
                let saved = RevisionState::activated(result.revision);
                LifecycleStep::Request(
                    LifecyclePhase::SavingActivatedState { result, previous },
                    StorageRequest::SaveState(saved),
                )
            },
            _ => failed(LifecycleFailure::ActiveStore),
        },
        LifecyclePhase::SavingActivatedState { result, previous } => match reply {
            StorageReply::Done => LifecycleStep::Finished(LifecycleOutcome::Activated(result)),
            _ => LifecycleStep::Request(LifecyclePhase::Restoring, StorageRequest::SaveActive(previous)),
        },
        LifecyclePhase::Restoring => match reply {
            StorageReply::Done => failed(LifecycleFailure::StateStore),
            _ => failed(LifecycleFailure::Recovery),
        },
        LifecyclePhase::LoadingHistorical { revision, actor, reason } => match reply {
            StorageReply::Revision(stored) => {
                let reason = rollback_reason(reason, revision);
                stage_with(stored.config, actor, reason, true)
            },
            _ => failed(LifecycleFailure::RevisionStore),
        },
    }
}

} // verus!
