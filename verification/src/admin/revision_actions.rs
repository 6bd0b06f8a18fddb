//! Activating the pending revision from the admin plane: who may, and what
//! the answer says once the lifecycle and the running proxy have acted.

use vstd::prelude::*;

use crate::admin::mutation::{
    revision_label_string, revision_label_text, STATUS_FORBIDDEN, STATUS_INTERNAL_ERROR, STATUS_OK,
    STATUS_UNAVAILABLE, STATUS_UNPROCESSABLE,
};
use crate::admin::security::CsrfToken;
use crate::config::{AdminConfig, AdminModel};

verus! {

/// An answer of the activation endpoint.
#[derive(Debug, Clone, PartialEq, Eq)]
pub struct ActivationReply {
    pub status: u16,
    pub html: String,
}

/// The fragment of a refused or failed activation.
pub open spec fn activation_error_html(message: Seq<char>) -> Seq<char> {
    "<div class=\"validation-card validation-error\"><strong>Revision was not activated</strong><p>"@
        + message + "</p></div>"@
}

/// The fragment once a route-only revision runs live.
pub open spec fn live_applied_html(revision: nat) -> Seq<char> {
    "<div class=\"validation-card validation-success\"><strong>Revision "@ + revision_label_text(
        revision,
    )
        + " activated and applied live</strong><p>New requests now use the updated route matching and policies. In-flight requests keep their pinned snapshot.</p><p><a href=\"/admin/revisions\">Refresh revision status</a></p></div>"@
}

/// The fragment once a structural revision is active on disk only.
pub open spec fn restart_required_html(revision: nat) -> Seq<char> {
    "<div class=\"validation-card validation-neutral\"><strong>Revision "@ + revision_label_text(
        revision,
    )
        + " activated; restart required</strong><p>The active configuration file was updated, but the running proxy remains unchanged because this revision contains structural changes.</p><p><a href=\"/admin/revisions\">Refresh revision status</a></p></div>"@
}

/// The fragment when the revision is active on disk but the running proxy
/// could not take it over.
pub open spec fn reconciliation_html(revision: nat) -> Seq<char> {
    "<div class=\"validation-card validation-error\"><strong>Revision "@ + revision_label_text(
        revision,
    )
        + " activated, but live apply failed</strong><p>The configuration on disk is active while the proxy still uses its previous runtime snapshot. Restart Lungyam to reconcile runtime state.</p></div>"@
}

/// Why an activation is refused before the lifecycle is asked.
pub open spec fn activation_refusal_of(
    admin: AdminModel,
    writes_enabled: bool,
    token_ok: bool,
    has_config_path: bool,
) -> Option<(u16, Seq<char>)> {
    if admin.read_only {
        Some((STATUS_FORBIDDEN, "Admin is configured as read-only."@))
    } else if !writes_enabled {
        Some((STATUS_FORBIDDEN, "Admin writes require a loopback listener."@))
    } else if !token_ok {
        Some((STATUS_FORBIDDEN, "CSRF token validation failed."@))
    } else if !has_config_path {
        Some((STATUS_UNAVAILABLE, "Config path is unavailable."@))
    } else {
        None
    }
}

fn error_reply(status: u16, message: &str) -> (r: ActivationReply)
    ensures
        r.status == status,
        r.html@ == activation_error_html(message@),
{
    let mut html = String::from_str(
        "<div class=\"validation-card validation-error\"><strong>Revision was not activated</strong><p>",
    );
    html.append(message);
    html.append("</p></div>");
    ActivationReply { status, html }
}

/// Checks that an activation may go ahead.
pub fn activation_refusal(
    admin: &AdminConfig,
    writes_enabled: bool,
    token: &CsrfToken,
    submitted_token: &str,
    has_config_path: bool,
) -> (r: Option<ActivationReply>)
    ensures
        match activation_refusal_of(
            admin@,
            writes_enabled,
            submitted_token@ == token.text(),
            has_config_path,
        ) {
            None => r is None,
            Some((status, message)) => r matches Some(reply) && reply.status == status
                && reply.html@ == activation_error_html(message),
        },
{
    if admin.read_only {
        return Some(error_reply(STATUS_FORBIDDEN, "Admin is configured as read-only."));
    }
    if !writes_enabled {
        return Some(error_reply(STATUS_FORBIDDEN, "Admin writes require a loopback listener."));
    }
    if !token.verify(submitted_token) {
        return Some(error_reply(STATUS_FORBIDDEN, "CSRF token validation failed."));
    }
    if !has_config_path {
        return Some(error_reply(STATUS_UNAVAILABLE, "Config path is unavailable."));
    }
    None
}

/// What follows the lifecycle's activation.
#[derive(Debug, Clone, PartialEq, Eq)]
pub enum ActivationStep {
    /// Answer now.
    Reply(ActivationReply),
    /// Reload the revision and hand it to the running proxy.
    ApplyLive(u64),
}

/// Decides what follows activation: `activated` is the revision that became
/// active with whether it needs a restart, or none when activation failed.
pub fn after_activation(activated: Option<(u64, bool)>) -> (r: ActivationStep)
    ensures
        match activated {
            None => r matches ActivationStep::Reply(reply) && reply.status == STATUS_UNPROCESSABLE
                && reply.html@ == activation_error_html("Pending revision activation failed."@),
            Some((revision, true)) => r matches ActivationStep::Reply(reply) && reply.status
                == STATUS_OK && reply.html@ == restart_required_html(revision as nat),
            Some((revision, false)) => r == ActivationStep::ApplyLive(revision),
        },
{
    match activated {
        None => ActivationStep::Reply(
            error_reply(STATUS_UNPROCESSABLE, "Pending revision activation failed."),
        ),
        Some((revision, true)) => {
            let mut html = String::from_str(
                "<div class=\"validation-card validation-neutral\"><strong>Revision ",
            );
            html.append(revision_label_string(revision).as_str());
            html.append(
                " activated; restart required</strong><p>The active configuration file was updated, but the running proxy remains unchanged because this revision contains structural changes.</p><p><a href=\"/admin/revisions\">Refresh revision status</a></p></div>",
            );
            ActivationStep::Reply(ActivationReply { status: STATUS_OK, html })
        },
        Some((revision, false)) => ActivationStep::ApplyLive(revision),
    }
}

/// The answer once the running proxy was asked to take the revision over.
pub fn after_live_apply(revision: u64, applied: bool) -> (r: ActivationReply)
    ensures
        applied ==> r.status == STATUS_OK && r.html@ == live_applied_html(revision as nat),
        !applied ==> r.status == STATUS_INTERNAL_ERROR && r.html@ == reconciliation_html(
            revision as nat,
        ),
{
    let label = revision_label_string(revision);
    if applied {
        let mut html = String::from_str(
            "<div class=\"validation-card validation-success\"><strong>Revision ",
        );
        html.append(label.as_str());
        html.append(
            " activated and applied live</strong><p>New requests now use the updated route matching and policies. In-flight requests keep their pinned snapshot.</p><p><a href=\"/admin/revisions\">Refresh revision status</a></p></div>",
        );
        ActivationReply { status: STATUS_OK, html }
    } else {
        let mut html = String::from_str(
            "<div class=\"validation-card validation-error\"><strong>Revision ",
        );
        html.append(label.as_str());
        html.append(
            " activated, but live apply failed</strong><p>The configuration on disk is active while the proxy still uses its previous runtime snapshot. Restart Lungyam to reconcile runtime state.</p></div>",
        );
        ActivationReply { status: STATUS_INTERNAL_ERROR, html }
    }
}

} // verus!
