//! An engine that runs a playbook of named actions against a mutable
//! run-time context: `{{ path }}` templates are resolved against the context
//! and the captured responses, actions are run in order on isolated stores
//! (once, or many times for a benchmark), and their reports are summarised.

pub mod actions;
pub mod aggregate;
pub mod interpolator;
pub mod laws;
pub mod runner;
pub mod store;
