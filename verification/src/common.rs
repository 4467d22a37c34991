pub mod adapter_type;
pub mod auth;
pub mod conn;
pub mod error;
pub mod ip;
pub mod tunnel_mode;
