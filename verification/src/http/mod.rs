//! Queries that come over HTTP.
pub mod types;
