//! A URL shortener with click analytics: the rules of every endpoint,
//! verified, for an HTTP server that keeps its links in a database.
pub mod text;
pub mod ranking;
pub mod code;
pub mod model;
pub mod analytics;
pub mod service;
pub mod page;
pub mod config;
pub mod laws;
pub mod store;
