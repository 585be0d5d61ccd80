//! A verified core for a caching TLS-terminating reverse proxy together with
//! the browser-profile analysis that ships beside it.
//!
//! The proxy part models the cache store (a URL-keyed static cache, a
//! transient captured map and a verify-then-promote API cache), the request
//! dispatcher that consults and updates them, and the cache controller that
//! clears them and triggers shutdown.  The profile part models Chrome trace
//! events, the sampled-profile call tree, and the analysis rules and
//! gatherers that run over it.  All I/O (TLS, sockets, files, JSON) lives in
//! the surrounding application; this crate holds the logic, verified.

pub mod bytesutil;
pub mod cache;
pub mod strutil;
pub mod classify;
pub mod proxy;
pub mod startup;
pub mod numfmt;
pub mod profile;
pub mod analyzer;
pub mod rules;
pub mod gatherers;
pub mod path_util;
pub mod chrome_profile;
pub mod parser;
