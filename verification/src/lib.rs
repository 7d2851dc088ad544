//! A verified core for a multi-room, turn-based five-in-a-row game server.
//!
//! The library holds the logic worth proving: the board rules engine
//! ([`board`]), the room state machine ([`game`]), the wire-message codec and
//! its round-trip laws ([`codec`], [`protocol`]), the room registry
//! ([`registry`]), identity resolution ([`auth`]), and the decision core of a
//! connection session ([`session`]). Sockets, tasks and the persistence
//! collaborator live outside and act only on what these functions decide.

pub mod auth;
pub mod board;
pub mod codec;
pub mod game;
pub mod protocol;
pub mod registry;
pub mod session;
