//! A minimal chat backend: named rooms holding append-only comment logs and
//! member sets, a registry of live client connections, and fan-out of comment
//! events to every member with a live connection.
//!
//! The library computes every decision of the backend — room creation and
//! lookup, comment appends, membership, which connection receives which
//! payload, and the exact JSON on the wire. Transport, locking and delivery
//! live outside it: a caller hands in plain values and performs the deliveries
//! the library hands back.

pub mod chatbox;
pub mod connections;
pub mod json;
pub mod room;
pub mod rooms;
pub mod ws;
