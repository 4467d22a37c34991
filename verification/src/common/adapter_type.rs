//! Kinds of outbound adapters and of inbound connections.

use vstd::prelude::*;
use crate::text::owned;

verus! {

/// Kind of an outbound adapter.
#[derive(Debug, Clone, Copy, PartialEq, Eq, Hash, Structural)]
pub enum AdapterType {
    Direct,
    Reject,
    RejectDrop,
    Selector,
    Fallback,
    UrlTest,
    LoadBalance,
    Relay,
    Shadowsocks,
    Socks5,
    Http,
    Vless,
    Trojan,
    Hysteria2,
    Anytls,
}

/// Display name of each adapter kind.
pub open spec fn adapter_type_name(t: AdapterType) -> Seq<char> {
    match t {
        AdapterType::Direct => "Direct"@,
        AdapterType::Reject => "Reject"@,
        AdapterType::RejectDrop => "RejectDrop"@,
        AdapterType::Selector => "Selector"@,
        AdapterType::Fallback => "Fallback"@,
        AdapterType::UrlTest => "URLTest"@,
        AdapterType::LoadBalance => "LoadBalance"@,
        AdapterType::Relay => "Relay"@,
        AdapterType::Shadowsocks => "Shadowsocks"@,
        AdapterType::Socks5 => "Socks5"@,
        AdapterType::Http => "Http"@,
        AdapterType::Vless => "Vless"@,
        AdapterType::Trojan => "Trojan"@,
        AdapterType::Hysteria2 => "Hysteria2"@,
        AdapterType::Anytls => "AnyTLS"@,
    }
}

impl AdapterType {
    /// The display name.
    pub fn to_string(&self) -> (r: String)
        ensures
            r@ == adapter_type_name(*self),
    {
        match self {
            AdapterType::Direct => owned("Direct"),
            AdapterType::Reject => owned("Reject"),
            AdapterType::RejectDrop => owned("RejectDrop"),
            AdapterType::Selector => owned("Selector"),
            AdapterType::Fallback => owned("Fallback"),
            AdapterType::UrlTest => owned("URLTest"),
            AdapterType::LoadBalance => owned("LoadBalance"),
            AdapterType::Relay => owned("Relay"),
            AdapterType::Shadowsocks => owned("Shadowsocks"),
            AdapterType::Socks5 => owned("Socks5"),
            AdapterType::Http => owned("Http"),
            AdapterType::Vless => owned("Vless"),
            AdapterType::Trojan => owned("Trojan"),
            AdapterType::Hysteria2 => owned("Hysteria2"),
            AdapterType::Anytls => owned("AnyTLS"),
        }
    }
}

/// Kind of an inbound connection.
#[derive(Debug, Clone, Copy, PartialEq, Eq, Hash, Structural)]
pub enum ConnType {
    Http,
    Https,
    Socks4,
    Socks5,
    Shadowsocks,
    Vmess,
    Vless,
    Redir,
    TProxy,
    Trojan,
    Tunnel,
    Tuic,
    Hysteria2,
    Inner,
}

/// Display name of each connection kind.
pub open spec fn conn_type_name(t: ConnType) -> Seq<char> {
    match t {
        ConnType::Http => "HTTP"@,
        ConnType::Https => "HTTPS"@,
        ConnType::Socks4 => "Socks4"@,
        ConnType::Socks5 => "Socks5"@,
        ConnType::Shadowsocks => "Shadowsocks"@,
        ConnType::Vmess => "Vmess"@,
        ConnType::Vless => "Vless"@,
        ConnType::Redir => "Redir"@,
        ConnType::TProxy => "TProxy"@,
        ConnType::Trojan => "Trojan"@,
        ConnType::Tunnel => "Tunnel"@,
        ConnType::Tuic => "Tuic"@,
        ConnType::Hysteria2 => "Hysteria2"@,
        ConnType::Inner => "Inner"@,
    }
}

impl ConnType {
    /// The display name.
    pub fn to_string(&self) -> (r: String)
        ensures
            r@ == conn_type_name(*self),
    {
        match self {
            ConnType::Http => owned("HTTP"),
            ConnType::Https => owned("HTTPS"),
            ConnType::Socks4 => owned("Socks4"),
            ConnType::Socks5 => owned("Socks5"),
            ConnType::Shadowsocks => owned("Shadowsocks"),
            ConnType::Vmess => owned("Vmess"),
            ConnType::Vless => owned("Vless"),
            ConnType::Redir => owned("Redir"),
            ConnType::TProxy => owned("TProxy"),
            ConnType::Trojan => owned("Trojan"),
            ConnType::Tunnel => owned("Tunnel"),
            ConnType::Tuic => owned("Tuic"),
            ConnType::Hysteria2 => owned("Hysteria2"),
            ConnType::Inner => owned("Inner"),
        }
    }
}

} // verus!
