//! Core of an incrementally maintained streaming dataflow engine: the node
//! processing contract, the miss/replay data model, and the lookup /
//! query-through chaining algorithm over partially materialized state.

pub mod data;
pub mod keys;
pub mod node;
pub mod processing;
pub mod security;
pub mod state;
