//! SketchSync: the state and the rules of a real-time collaborative drawing server.
//!
//! The library keeps who is connected, which rooms exist with which members,
//! and the per-room history of drawing events. It decides, for every message a
//! client sends, how the state changes and who receives what; the server
//! program around it performs the network I/O.

pub mod utils;
pub mod state;
pub mod bridge;
pub mod room;
pub mod sweep;
pub mod laws;
