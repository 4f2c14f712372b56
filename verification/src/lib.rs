//! Verified core of a collaborative Sudoku server.
//!
//! Many clients jointly edit a single 9x9 board inside a room. This crate
//! holds the room's data model and state machine: digits and digit sets,
//! board squares and diff application, cursor selections and their
//! fixed-capacity map, room ids with their textual form, the wire-protocol
//! message shapes, the per-session protocol steps, and the on-disk blob
//! codec. The network, persistence and async plumbing around this core live
//! in a thin unverified shell that calls into these functions.

pub mod board;
pub mod cursors;
pub mod digit;
pub mod error;
pub mod protocol;
pub mod room;
pub mod session;
pub mod text;
