//! The request handlers, as functions from plain values to answers.

pub mod blocklist;
pub mod common;
pub mod dashboard;
pub mod extensions;
pub mod health;
pub mod logs;
