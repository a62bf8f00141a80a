//! Verified core of a chat relay: many duplex client sessions, a registry
//! with broadcast fan-out, and a dispatcher that limits how many calls to a
//! streaming completion provider run at once.
//!
//! Everything here is pure state and decisions. A thin async shell owns the
//! sockets and the provider connection; it feeds events into these state
//! machines and performs the actions they hand back.

pub mod commands;
pub mod dispatcher;
pub mod environment;
pub mod filemap;
pub mod message;
pub mod registry;
pub mod relay;
pub mod session;
pub mod text;
