//! A subagent that serves the interface stack table: which network interface
//! is layered directly on top of which other one.

pub mod attributes;
pub mod config;
pub mod error;
pub mod laws;
pub mod link;
pub mod mib;
pub mod monitor;
pub mod netlink;
pub mod notify;
pub mod oid;
pub mod pairs;
pub mod session;
pub mod session_laws;
pub mod supervisor;
pub mod text;
pub mod time;
pub mod wire;
