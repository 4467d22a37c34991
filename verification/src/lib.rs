//! Verified core of the meow proxy toolkit: wire codecs, configuration
//! parsers, selection policies and protocol state machines.

pub mod api;
pub mod bench;
pub mod bytes;
pub mod common;
pub mod config;
pub mod dns;
pub mod text;
pub mod proxy;
pub mod string_map;
