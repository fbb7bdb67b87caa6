//! Client-side data model for a text-completion HTTP API.
//!
//! The crate defines the request and response shapes, validates a request's
//! mutually exclusive ("oneOf") field groups before it is sent, and emits the
//! JSON wire encoding of requests and responses, with a proof that reading an
//! encoded response back yields the same value. Transport (connections,
//! authentication, base URLs) is an injected collaborator and lives outside
//! this crate.

pub mod completions;
pub mod decode;
pub mod text;
pub mod wire;
