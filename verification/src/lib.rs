//! A bounded in-memory store for browser telemetry: batches of network logs,
//! extension and security events, and the blocklist in force, together with
//! the packet identifiers and the read-side views a dashboard needs.
//!
//! The collections of the store and the counter of packet identifiers are
//! changed through `&mut`: one change is whole before the next begins, and a
//! reader gets copies, never a look into the store. Each collection is a
//! type of its own, and each handler takes the one it touches, so that a
//! server that shares them between threads can keep each behind a lock of
//! its own and never hold two.
//!
//! The handlers are functions from plain values to answers. Reading a
//! request, decoding its body and sending the answer are left to the server.

pub mod handlers;
pub mod json;
pub mod packet_id;
pub mod reply;
pub mod simple;
pub mod text;
pub mod types;
