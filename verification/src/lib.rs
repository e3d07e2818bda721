//! The core of `welle`, a tool for load testing servers: it makes a number of
//! HTTP requests, a limited number of them at a time, and reports how long
//! they took.
//!
//! This library holds what such a run decides and computes, and leaves what
//! it does to its caller. Nothing here opens a connection or reads a clock:
//!
//! - [`dispatcher`] decides which request is started when, so that no more
//!   than the allowed number are ever in flight, and collects the outcomes;
//! - [`timer`] measures an operation from its first poll to its completion;
//! - [`outcome`] and [`status`] hold what a request and a run leave behind;
//! - [`report`] and [`percentile`] reduce a finished run to its figures;
//! - [`args`] checks what the user asked for.
//!
//! Durations are counts of nanoseconds, and instants are nanoseconds since an
//! origin that the caller picks. Every function states in its contract what it
//! returns, and the contracts are proved.

pub mod args;
pub mod dispatcher;
pub mod outcome;
pub mod percentile;
pub mod report;
pub mod status;
pub mod timer;
