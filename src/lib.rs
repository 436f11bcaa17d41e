//! Client side of the Model Context Protocol: JSON-RPC framing over a child
//! process's standard streams, the handshake session, and a registry that
//! merges the tools of many servers into one namespaced catalog.

pub mod catalog;
pub mod client;
pub mod config;
pub mod dispatch;
pub mod json;
pub mod naming;
pub mod protocol;
pub mod registry;
