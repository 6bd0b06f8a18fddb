//! Lungyam: configuration model, validation, routing, revision bookkeeping
//! and admin-plane decisions of an edge API proxy, with their contracts.

use vstd::prelude::*;

pub mod admin;
pub mod config;
pub mod config_diff;
pub mod lifecycle;
pub mod ordered;
pub mod proxy;
pub mod revision;
pub mod revision_state;
pub mod routing;
pub mod runtime;
pub mod text;

verus! {

/// Human-readable project name used by runtime adapters.
pub const PROJECT_NAME: &'static str = "Lungyam";

} // verus!
