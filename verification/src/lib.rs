//! Verified core of an audio mirroring tool for PipeWire: the registry of
//! PipeWire objects, the link bookkeeping that mirrors one source to several
//! targets, the interpretation of PipeWire properties and parameters, and the
//! small decisions that the user interface makes.

pub mod candidate;
pub mod connection;
pub mod graph;
pub mod messages;
pub mod pod;
pub mod state;
pub mod text;
pub mod types;
pub mod ui;
