//! Structured failures out of CI job logs, and the bookkeeping of check runs around them.
pub mod aggregate;
pub mod auth;
pub mod checks;
pub mod config;
pub mod eslint;
pub mod git;
pub mod jest;
pub mod laws;
pub mod normalize;
pub mod poll;
pub mod record;
pub mod term;
pub mod text;
pub mod tsc;
