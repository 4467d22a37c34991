//! DNS: upstream nameserver addresses, the answer cache and the server's wire format.

pub mod cache;
pub mod server;
pub mod upstream;
