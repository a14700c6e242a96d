//! A retry queue for batches of independent operations.
//!
//! A caller starts one operation per key, all at once, and reports each
//! completion as it arrives. Operations that ask to be retried are queued and
//! started again in later rounds, up to a fixed number of retry rounds; a
//! fatal error ends the run at once. This crate holds the decisions of that
//! procedure as a state machine: it never waits or sleeps itself, it tells
//! its driver what to do next.

pub mod outcome;
pub mod notice;
pub mod queue;
pub mod run;
