//! Core of a broadcast chat server: a registry of connected clients with
//! their outbound frame queues, an append-only text history replayed to
//! new joiners, and the fan-out engine that delivers each inbound message
//! to every registered client and prunes the ones whose delivery failed.
//! A small task-list component (users with numbered tasks) lives beside it.
use vstd::prelude::*;

pub mod message;
pub mod channel;
pub mod history;
pub mod registry;
pub mod server;
pub mod laws;
pub mod tasks;
