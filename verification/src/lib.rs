//! An HTTP front end over a DNS resolver: hostname validation, query-option
//! parsing, result shaping (truncation and optional shuffle), response status
//! mapping, and name-server configuration parsing.

pub mod config;
pub mod handler;
pub mod host;
pub mod query;
pub mod response;
pub mod shape;
pub mod text;
