//! A parallel test-case reducer's scheduling core.
//!
//! The supervisor's decisions are a verified state machine: each inbound
//! message is a method of [`supervisor::Supervisor`] that updates the
//! scheduling state and returns the commands that the caller must carry out
//! (send a candidate to a worker, reseed a reducer, spawn a replacement, ...).
//! Threads, channels and files stay with the caller.

pub mod test_case;
pub mod queue;
pub mod ids;
pub mod model;
pub mod supervisor;
pub mod laws;
pub mod stats;
