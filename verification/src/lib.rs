//! A verified worker-pool engine for wordlist-driven HTTP path probing.
//!
//! The heart of the crate is the pool protocol: a FIFO control channel
//! carrying jobs and terminate signals, a fixed set of workers that drain
//! it one message at a time, and a teardown that hands every submitted
//! job out exactly once before the workers exit. The protocol lives in
//! [`pool`] against the mathematical model of [`model`]; [`dispatch`]
//! builds the probe paths from a wordlist and decides which probe
//! outcomes are reported; [`config`] validates the run parameters.

pub mod config;
pub mod dispatch;
pub mod job;
pub mod model;
pub mod pool;
