//! The admin plane's decisions: forms, candidate configurations and views.

pub mod mutation;
pub mod revision_actions;
pub mod route_edits;
pub mod route_forms;
pub mod route_stage;
pub mod security;
pub mod simulator;
pub mod upstream_stage;
pub mod views;
