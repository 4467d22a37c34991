//! The DIRECT outbound: where a connection goes without a proxy.

use vstd::prelude::*;
use crate::common::adapter_type::AdapterType;
use crate::common::error::MeowError;
use crate::common::ip::{parse_ip, spec_parse_ip, IpAddress};
use crate::text::{owned, push_decimal, string_append};

verus! {

/// Connects directly, optionally marking sockets (`SO_MARK`), resolving
/// names through an injected resolver `R`, and bounding the connect time.
pub struct DirectAdapter<R> {
    routing_mark: Option<u32>,
    resolver: Option<R>,
    connect_timeout: Option<std::time::Duration>,
}

/// How the destination of a direct connection is found.
#[derive(Debug, Clone, PartialEq, Eq)]
pub enum TargetPlan {
    /// The address is known.
    Connect(IpAddress, u16),
    /// Resolve the host with the injected resolver.
    Resolve(String, u16),
    /// Resolve `host:port` with the system resolver (no resolver injected).
    SystemLookup(String),
}

impl<R> DirectAdapter<R> {
    pub closed spec fn spec_routing_mark(&self) -> Option<u32> {
        self.routing_mark
    }

    pub closed spec fn spec_resolver(&self) -> Option<R> {
        self.resolver
    }

    pub open spec fn spec_has_resolver(&self) -> bool {
        self.spec_resolver() is Some
    }

    pub closed spec fn spec_connect_timeout(&self) -> Option<std::time::Duration> {
        self.connect_timeout
    }

    pub open spec fn spec_has_timeout(&self) -> bool {
        self.spec_connect_timeout() is Some
    }

    /// No mark, no resolver, no connect bound.
    pub fn new() -> (r: DirectAdapter<R>)
        ensures
            r.spec_routing_mark() is None,
            !r.spec_has_resolver(),
            !r.spec_has_timeout(),
    {
        DirectAdapter { routing_mark: None, resolver: None, connect_timeout: None }
    }

    /// Marks the connections' sockets before connecting.
    pub fn with_routing_mark(self, routing_mark: u32) -> (r: DirectAdapter<R>)
        ensures
            r.spec_routing_mark() == Some(routing_mark),
            r.spec_resolver() == self.spec_resolver(),
            r.spec_connect_timeout() == self.spec_connect_timeout(),
    {
        let mut a = self;
        a.routing_mark = Some(routing_mark);
        a
    }

    /// Resolves host names with `resolver` instead of the system.
    pub fn with_resolver(self, resolver: R) -> (r: DirectAdapter<R>)
        ensures
            r.spec_routing_mark() == self.spec_routing_mark(),
            r.spec_resolver() == Some(resolver),
            r.spec_connect_timeout() == self.spec_connect_timeout(),
    {
        let mut a = self;
        a.resolver = Some(resolver);
        a
    }

    /// Bounds the time a connect may take.
    pub fn with_connect_timeout(self, timeout: std::time::Duration) -> (r: DirectAdapter<R>)
        ensures
            r.spec_routing_mark() == self.spec_routing_mark(),
            r.spec_resolver() == self.spec_resolver(),
            r.spec_connect_timeout() == Some(timeout),
    {
        let mut a = self;
        a.connect_timeout = Some(timeout);
        a
    }

    pub fn routing_mark(&self) -> (r: Option<u32>)
        ensures
            r == self.spec_routing_mark(),
    {
        self.routing_mark
    }

    pub fn resolver(&self) -> (r: Option<&R>)
        ensures
            r is Some == self.spec_has_resolver(),
            r matches Some(x) ==> Some(*x) == self.spec_resolver(),
    {
        self.resolver.as_ref()
    }

    pub fn connect_timeout(&self) -> (r: Option<std::time::Duration>)
        ensures
            r == self.spec_connect_timeout(),
    {
        self.connect_timeout
    }

    pub fn name(&self) -> (r: &'static str)
        ensures
            r@ == "DIRECT"@,
    {
        "DIRECT"
    }

    pub fn adapter_type(&self) -> (r: AdapterType)
        ensures
            r == AdapterType::Direct,
    {
        AdapterType::Direct
    }

    pub fn addr(&self) -> (r: &'static str)
        ensures
            r@ == ""@,
    {
        ""
    }

    pub fn support_udp(&self) -> (r: bool)
        ensures
            r,
    {
        true
    }

    /// Where to connect for a destination: a resolved address first, then a
    /// host that is an IP literal, then the host resolved by the injected
    /// resolver (or the system resolver when there is none); no host and no
    /// address is an error.
    pub fn plan_target(&self, dst_ip: Option<IpAddress>, host: &str, dst_port: u16) -> (r: Result<
        TargetPlan,
        MeowError,
    >)
        ensures
            match dst_ip {
                Some(ip) => r == Ok::<TargetPlan, MeowError>(TargetPlan::Connect(ip, dst_port)),
                None => match spec_parse_ip(host@) {
                    Some(ip) => r == Ok::<TargetPlan, MeowError>(TargetPlan::Connect(ip, dst_port)),
                    None => if host@.len() > 0 {
                        if self.spec_has_resolver() {
                            (r matches Ok(TargetPlan::Resolve(h, p)) && h@ == host@ && p == dst_port)
                        } else {
                            (r matches Ok(TargetPlan::SystemLookup(a)) && a@ == host@ + ":"@
                                + crate::text::decimal(dst_port as nat))
                        }
                    } else {
                        (r matches Err(MeowError::Proxy(m)) && m@
                            == "direct: metadata has no destination"@)
                    },
                },
            },
    {
        if let Some(ip) = dst_ip {
            return Ok(TargetPlan::Connect(ip, dst_port));
        }
        if let Some(ip) = parse_ip(host) {
            return Ok(TargetPlan::Connect(ip, dst_port));
        }
        if !host.is_empty() {
            if self.resolver.is_some() {
                return Ok(TargetPlan::Resolve(owned(host), dst_port));
            }
            let mut addr = owned(host);
            string_append(&mut addr, ":");
            push_decimal(&mut addr, dst_port as u64);
            return Ok(TargetPlan::SystemLookup(addr));
        }
        Err(MeowError::Proxy(owned("direct: metadata has no destination")))
    }

    /// The outcome of resolving `host` with the injected resolver.
    pub fn resolved(&self, host: &str, dst_port: u16, ip: Option<IpAddress>) -> (r: Result<
        (IpAddress, u16),
        MeowError,
    >)
        ensures
            match ip {
                Some(a) => r == Ok::<(IpAddress, u16), MeowError>((a, dst_port)),
                None => (r matches Err(MeowError::Dns(m)) && m@ == "direct: failed to resolve "@
                    + host@),
            },
    {
        match ip {
            Some(a) => Ok((a, dst_port)),
            None => {
                let mut m = owned("direct: failed to resolve ");
                string_append(&mut m, host);
                Err(MeowError::Dns(m))
            },
        }
    }
}

impl<R> Default for DirectAdapter<R> {
    fn default() -> (r: DirectAdapter<R>)
        ensures
            r.spec_routing_mark() is None,
            !r.spec_has_resolver(),
            !r.spec_has_timeout(),
    {
        DirectAdapter::new()
    }
}

/// The error when the system resolver finds no address for `addr`.
pub fn no_address_error(addr: &str) -> (r: MeowError)
    ensures
        r matches MeowError::Dns(m) && m@ == "direct: no address for "@ + addr@,
{
    let mut m = owned("direct: no address for ");
    string_append(&mut m, addr);
    MeowError::Dns(m)
}

} // verus!
