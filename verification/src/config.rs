pub mod auth;
pub mod geodata;
pub mod proxy_provider;
pub mod yaml;
pub mod subscription;
