//! Verified core of a small system monitor.
//!
//! The library samples operating-system telemetry handed to it as plain
//! bytes: it extracts values from line-oriented "key: value" files, turns
//! cumulative kernel counters into per-tick rates, keeps fixed-length
//! rolling histories, ranks processes by resident memory, and assembles
//! one metrics snapshot per sampling tick.  All file reading and all
//! presentation stay outside; the functions here are pure and verified.

pub mod cycle;
pub mod kv;
pub mod procs;
pub mod rates;
pub mod temp;
pub mod text;
pub mod window;
