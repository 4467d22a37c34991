//! The byte and number logic of the benchmark harness.

pub mod memory;
pub mod socks5_client;
pub mod stats;
