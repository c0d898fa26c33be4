//! A programmable WebSocket mock: declarative stubs, the matchers that score
//! them against a connection, the registry that selects the best one and the
//! per-connection scheduler that orders the replies by deadline.
//!
//! The crate owns no socket, no thread and no clock: the server that does
//! feeds a [`ws::Session`] with what it read and when, and sends what the
//! session hands back. Two things here are drawn at random, by the `rand`
//! crate: the span of an interval delay and the name of a feed that was given
//! none.

pub mod chance;
pub mod clock;
pub mod document;
pub mod entries;
pub mod error;
pub mod float;
pub mod json;
pub mod matchers;
pub mod pattern;
pub mod ws;
