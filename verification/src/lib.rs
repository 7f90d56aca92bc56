//! Session-tree synchronization engine for a terminal multiplexer.
//!
//! The library keeps an in-memory model of the multiplexer's
//! session/window/pane topology, classifies pane output lines against a
//! fixed set of prompt patterns, synthesizes window titles from the
//! classified pane titles, and turns hook notifications into queue
//! instructions.  Everything here is pure computation on plain values:
//! the surrounding process performs the topology queries, the attach
//! streams and the rename commands, and hands their text to this crate.

pub mod classify;
pub mod engine;
pub mod notify;
pub mod text;
pub mod title;
pub mod topology;
pub mod tree;
