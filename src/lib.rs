//! Build-target index and backend gateway for an editor language server.
//!
//! The build graph (`graph`, filled by `loader` from build files read by `syntax`) answers
//! target, dependency and reference queries; `protocol` frames and correlates requests to
//! backend processes, and `routing` sends each request to the backend of its language.
pub mod bep;
pub mod client;
pub mod cursor;
pub mod graph;
pub mod label;
pub mod loader;
pub mod protocol;
pub mod query;
pub mod routing;
pub mod store;
pub mod syntax;
pub mod text;
