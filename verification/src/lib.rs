//! A rendezvous matching engine.
//!
//! Two clients that do not know each other's address each send a datagram
//! with the same identifier. The engine keeps the first request pending,
//! and when the second arrives from a different endpoint it pairs the two,
//! so that each can be told the address of the other.
//!
//! Time is a `u64` count of ticks of whatever unit the caller's clock has;
//! a TTL is a number of the same ticks.
//!
//! - [`endpoint`] and [`request`] hold the plain values: where a request
//!   came from, and the request itself.
//! - [`model`] says what a registry is as a mathematical value.
//! - [`registry`] stores the pending requests, at most one per identifier.
//! - [`engine`] decides: register, refresh, pair, evict.
//! - [`pair`] turns a matched pair into the two messages to send.
//! - [`coordinator`] takes events one at a time and drives the engine.
//! - [`wire`] reads an identifier out of a datagram's payload.
//! - [`text`] writes numbers in decimal.
//! - [`laws`] proves what holds over whole histories of events.

pub mod coordinator;
pub mod endpoint;
pub mod engine;
pub mod laws;
pub mod model;
pub mod pair;
pub mod registry;
pub mod request;
pub mod text;
pub mod wire;
