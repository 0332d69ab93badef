//! Deterministic pseudorandom "garbage" streams for destructive surface tests
//! of block devices, and the engines that write such a stream to a device and
//! verify it on read-back.

pub mod encoding;
pub mod primitives;
pub mod garbage;
pub mod read_phase;
pub mod write_phase;
pub mod partitions;
pub mod sanity;
