//! Conformance-testing core for a register-based smart-contract virtual
//! machine: the execution adapter that prepares a single VM call and
//! interprets its observable outcome (return data, events, storage delta,
//! deployed contracts), the event reconstructor that folds the VM's flat
//! log-record stream into structured events, and the scheduler that expands
//! the test matrix and aggregates per-unit outcomes into a summary.

pub mod adapter;
pub mod encode;
pub mod errors;
pub mod events;
pub mod registry;
pub mod schedule;
pub mod storage;
pub mod summary;
pub mod words;

pub use words::address_into_u256;
