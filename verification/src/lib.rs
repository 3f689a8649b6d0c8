//! A URL-shortening service core: code generation policy, form parsing,
//! the single-table URL store, and the create/lookup/count request
//! handlers.
//!
//! The HTTP transport, process configuration and persistence binding are
//! external collaborators; this crate holds the request-handling and
//! storage logic with its contracts.

pub mod code_policy;
pub mod config;
pub mod form;
pub mod laws;
pub mod routes;
pub mod store;
pub mod text;
