//! What every staged route change goes through: who may write, and the
//! answer that the route staging fragment shows.

use vstd::prelude::*;

use crate::admin::security::CsrfToken;
use crate::config::{AdminConfig, AdminModel, Config};
use crate::text::zero_padded_string;
use crate::text::zero_padded;

verus! {

/// HTTP status codes that the staging answers use.
pub const STATUS_OK: u16 = 200;
pub const STATUS_FORBIDDEN: u16 = 403;
pub const STATUS_UNPROCESSABLE: u16 = 422;
pub const STATUS_INTERNAL_ERROR: u16 = 500;
pub const STATUS_UNAVAILABLE: u16 = 503;

/// Why a write is refused before any candidate is built: the status and
/// the message, or nothing when the write may go ahead. `writes_enabled`
/// is the listener policy; `token_ok` whether the submitted token matched.
pub open spec fn write_refusal(
    admin: AdminModel,
    writes_enabled: bool,
    token_ok: bool,
    has_config_path: bool,
) -> Option<(u16, Seq<char>)> {
    if admin.read_only {
        Some((STATUS_FORBIDDEN, "Admin is configured as read-only."@))
    } else if !writes_enabled {
        Some(
            (
                STATUS_FORBIDDEN,
                "Admin writes require a loopback listener until authentication is configured."@,
            ),
        )
    } else if !token_ok {
        Some((STATUS_FORBIDDEN, "CSRF token validation failed."@))
    } else if !has_config_path {
        Some(
            (
                STATUS_UNAVAILABLE,
                "Config path is unavailable; staging is disabled for this admin router."@,
            ),
        )
    } else {
        None
    }
}

/// The answer of a staging request, as the route staging fragment shows it.
#[derive(Debug, Clone, PartialEq, Eq)]
pub struct StageReply {
    pub status: u16,
    pub success: bool,
    pub route_name: String,
    pub revision: String,
    pub message: String,
}

pub struct StageReplyModel {
    pub status: u16,
    pub success: bool,
    pub route_name: Seq<char>,
    pub revision: Seq<char>,
    pub message: Seq<char>,
}

impl View for StageReply {
    type V = StageReplyModel;

    open spec fn view(&self) -> StageReplyModel {
        StageReplyModel {
            status: self.status,
            success: self.success,
            route_name: self.route_name@,
            revision: self.revision@,
            message: self.message@,
        }
    }
}

/// What to do with a staging request: answer at once, or stage a candidate
/// with the reason recorded beside it.
#[derive(Debug)]
pub enum StagePlan {
    Reply(StageReply),
    Stage { route_name: String, candidate: Config, reason: String },
}

/// How a revision number is shown: `#` and six digits at least.
pub open spec fn revision_label_text(revision: nat) -> Seq<char> {
    "#"@ + zero_padded(revision, 6)
}

pub fn revision_label_string(revision: u64) -> (r: String)
    ensures
        r@ == revision_label_text(revision as nat),
{
    let mut r = String::from_str("#");
    let digits = zero_padded_string(revision, 6);
    r.append(digits.as_str());
    r
}

/// A refusal or failure of a staging request.
pub fn error_reply(status: u16, route_name: &str, message: &str) -> (r: StageReply)
    ensures
        r@ == (StageReplyModel {
            status,
            success: false,
            route_name: route_name@,
            revision: Seq::empty(),
            message: message@,
        }),
{
    StageReply {
        status,
        success: false,
        route_name: String::from_str(route_name),
        revision: String::new(),
        message: String::from_str(message),
    }
}

/// The answer once a revision was staged.
pub fn staged_reply(route_name: &str, revision: u64) -> (r: StageReply)
    ensures
        r@ == (StageReplyModel {
            status: STATUS_OK,
            success: true,
            route_name: route_name@,
            revision: revision_label_text(revision as nat),
            message: Seq::empty(),
        }),
{
    StageReply {
        status: STATUS_OK,
        success: true,
        route_name: String::from_str(route_name),
        revision: revision_label_string(revision),
        message: String::new(),
    }
}

/// The answer once the store has tried to stage a candidate: the revision
/// it created, or the text of its error.
pub fn stage_outcome_reply(route_name: &str, outcome: Result<u64, String>) -> (r: StageReply)
    ensures
        match outcome {
            Ok(revision) => r@ == (StageReplyModel {
                status: STATUS_OK,
                success: true,
                route_name: route_name@,
                revision: revision_label_text(revision as nat),
                message: Seq::empty(),
            }),
            Err(m) => r@ == (StageReplyModel {
                status: STATUS_INTERNAL_ERROR,
                success: false,
                route_name: route_name@,
                revision: Seq::empty(),
                message: m@,
            }),
        },
{
    match outcome {
        Ok(revision) => staged_reply(route_name, revision),
        Err(message) => error_reply(STATUS_INTERNAL_ERROR, route_name, message.as_str()),
    }
}

/// Checks that a write may go ahead, in the order the admin plane checks:
/// read-only mode, the listener policy, the token, then the config path.
pub fn authorize(
    admin: &AdminConfig,
    writes_enabled: bool,
    token: &CsrfToken,
    submitted_token: &str,
    has_config_path: bool,
    route_name: &str,
) -> (r: Result<(), StageReply>)
    ensures
        match write_refusal(admin@, writes_enabled, submitted_token@ == token.text(), has_config_path) {
            None => r is Ok,
            Some((status, message)) => r matches Err(reply) && reply@ == (StageReplyModel {
                status,
                success: false,
                route_name: route_name@,
                revision: Seq::empty(),
                message,
            }),
        },
{
    if admin.read_only {
        return Err(error_reply(STATUS_FORBIDDEN, route_name, "Admin is configured as read-only."));
    }
    if !writes_enabled {
        return Err(
            error_reply(
                STATUS_FORBIDDEN,
                route_name,
                "Admin writes require a loopback listener until authentication is configured.",
            ),
        );
    }
    if !token.verify(submitted_token) {
        return Err(error_reply(STATUS_FORBIDDEN, route_name, "CSRF token validation failed."));
    }
    if !has_config_path {
        return Err(
            error_reply(
                STATUS_UNAVAILABLE,
                route_name,
                "Config path is unavailable; staging is disabled for this admin router.",
            ),
        );
    }
    Ok(())
}

} // verus!
