//! Rusty Mesh: an in-memory service registry with semantic-version discovery,
//! heartbeat leases and sorted round-robin selection.

pub mod text;
pub mod versioning;
pub mod instance;
pub mod ordering;
pub mod registry;
pub mod laws;
pub mod responses;
pub mod config;
pub mod auth;
pub mod controllers;
pub mod docker;
pub mod client;
