//! Turns a method table into an actor: a message type with one variant per
//! public method, and a single-consumer runtime (mailbox, handles with a
//! shared reference count, a dispatch router and its shutdown protocol).

pub mod descriptor;
pub mod synth;
pub mod runtime;
pub mod kv_store;
pub mod logger;
