//! Verified core of a sequential block-device surface scanner.
//!
//! The library models a device as a run of logical sectors and verifies the
//! engine that walks it: geometry validation, the chunk-then-sector
//! fault-isolation state machines, zero-fill repair with per-chunk flush
//! sequencing, and throttled progress accounting. Real device I/O (direct
//! reads, ioctls, flush system calls) lives outside the library and feeds
//! probe outcomes into the verified state machines.

pub mod errors;
pub mod geometry;
pub mod laws;
pub mod progress;
pub mod scan;
pub mod sim;
