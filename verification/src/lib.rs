//! Verified core of an OAuth-protected key-authorization service.
pub mod storage;
pub mod text;
pub mod json;
pub mod encoding;
pub mod crypto;
pub mod routes_client;
pub mod state;
pub mod config;
pub mod github;
pub mod routes_api;
pub mod routes_ops;
pub mod oauth;
