//! Core of a small concurrent TCP broadcast chat server.
//!
//! The crate verifies the three pieces that make such a server correct:
//! a sentinel-delimited framing codec that turns a byte stream into
//! discrete messages, a fixed-size worker pool with a graceful
//! termination protocol, and a shared client registry with safe
//! insert/remove/broadcast semantics, tied together by a per-connection
//! session state machine.  All I/O (sockets, threads, channels) lives
//! outside the library; the library works on plain values and models of
//! the shared state, and states in its contracts exactly what each
//! operation does to them.

pub mod codec;
pub mod conn;
pub mod ids;
pub mod pool;
pub mod registry;
pub mod session;
