pub mod anytls;
pub mod direct;
pub mod group;
pub mod hysteria2;
pub mod simple_obfs;
pub mod transport_chain;
pub mod v2ray_plugin;
