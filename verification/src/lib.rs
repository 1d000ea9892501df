//! Verified core of a WebDAV front end for S3-compatible object stores.
//!
//! The executable pieces that talk to the network live elsewhere; this crate
//! holds the path rules, the per-file cursor and write buffer, the listing
//! and removal state machines, and the account and configuration rules.

pub mod bindings;
pub mod config;
pub mod davurl;
pub mod minio;
pub mod text;
pub mod userfs;
