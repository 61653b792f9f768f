//! Verified core of a command-line client for a hosted document-management
//! service: resilient transport decisions, pagination, identifier resolution,
//! bulk-transfer ordering, and tree replication.
pub mod auth;
pub mod cli;
pub mod commands;
pub mod config;
pub mod download;
pub mod endpoints;
pub mod errors;
pub mod headers;
pub mod httpmsg;
pub mod jsonv;
pub mod markdown;
pub mod pagination;
pub mod pattern;
pub mod resolve;
pub mod strutil;
pub mod transfer;
pub mod tree;
pub mod transport;
pub mod urlwrap;
