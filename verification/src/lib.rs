//! A verified job-queue engine.
//!
//! Clients enqueue units of work ("jobs") onto named queues, workers claim
//! jobs to execute, and the engine tracks each job's lifecycle: it enforces
//! the status state machine, keeps the per-queue pending lists and the tag
//! index consistent with the authoritative job records, and applies each
//! queue's retry/timeout/expiry policy from heartbeat timestamps alone.
//!
//! The engine itself performs no I/O and reads no clock: every operation
//! that depends on time takes the current time as an argument, so the whole
//! lifecycle logic is verified. HTTP routing, configuration and the periodic
//! scheduling of the monitor live outside the library.

pub mod status;
pub mod error;
pub mod settings;
pub mod job;
pub mod engine;
pub mod registry;
pub mod tagindex;
pub mod store;
pub mod update;
pub mod delete;
pub mod monitor;
pub mod laws;
