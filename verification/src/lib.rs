//! A build-server-protocol bridge for Bazel action-graph queries.
//!
//! The crate verifies the two cores of such a server: the length-prefixed
//! message transport and the action-graph resolver that turns a query
//! document into deduplicated per-target compile information.

pub mod dispatch;
pub mod error;
pub mod config;
pub mod framing;
pub mod messages;
pub mod methods;
pub mod query;
pub mod resolve;
pub mod rewrite;
pub mod session;
pub mod strutil;
