//! Global routing mode.

use vstd::prelude::*;
use crate::text::{eq_ignore_ascii_case, owned, str_eq_ignore_ascii_case, string_append};

verus! {

/// How traffic is routed: everything through the global proxy, by rules, or direct.
#[derive(Debug, Clone, Copy, PartialEq, Eq, Hash, Structural)]
pub enum TunnelMode {
    Global,
    Rule,
    Direct,
}

impl Default for TunnelMode {
    fn default() -> (r: Self)
        ensures
            r == TunnelMode::Rule,
    {
        TunnelMode::Rule
    }
}

/// Lower-case name of each mode.
pub open spec fn tunnel_mode_name(m: TunnelMode) -> Seq<char> {
    match m {
        TunnelMode::Global => "global"@,
        TunnelMode::Rule => "rule"@,
        TunnelMode::Direct => "direct"@,
    }
}

/// The mode a name denotes, regardless of case.
pub open spec fn spec_parse_tunnel_mode(s: Seq<char>) -> Option<TunnelMode> {
    if eq_ignore_ascii_case(s, "global"@) {
        Some(TunnelMode::Global)
    } else if eq_ignore_ascii_case(s, "rule"@) {
        Some(TunnelMode::Rule)
    } else if eq_ignore_ascii_case(s, "direct"@) {
        Some(TunnelMode::Direct)
    } else {
        None
    }
}

impl TunnelMode {
    /// The lower-case name.
    pub fn to_string(&self) -> (r: String)
        ensures
            r@ == tunnel_mode_name(*self),
    {
        match self {
            TunnelMode::Global => owned("global"),
            TunnelMode::Rule => owned("rule"),
            TunnelMode::Direct => owned("direct"),
        }
    }

    /// Reads a mode name, regardless of case; an unknown name is an error that
    /// quotes it.
    pub fn parse(s: &str) -> (r: Result<TunnelMode, String>)
        ensures
            match spec_parse_tunnel_mode(s@) {
                Some(m) => r == Ok::<TunnelMode, String>(m),
                None => r matches Err(e) && e@ == "unknown tunnel mode: "@ + s@,
            },
    {
        if str_eq_ignore_ascii_case(s, "global") {
            Ok(TunnelMode::Global)
        } else if str_eq_ignore_ascii_case(s, "rule") {
            Ok(TunnelMode::Rule)
        } else if str_eq_ignore_ascii_case(s, "direct") {
            Ok(TunnelMode::Direct)
        } else {
            let mut e = owned("unknown tunnel mode: ");
            string_append(&mut e, s);
            Err(e)
        }
    }
}

impl std::str::FromStr for TunnelMode {
    type Err = String;

    fn from_str(s: &str) -> (r: Result<TunnelMode, String>)
        ensures
            match spec_parse_tunnel_mode(s@) {
                Some(m) => r == Ok::<TunnelMode, String>(m),
                None => r matches Err(e) && e@ == "unknown tunnel mode: "@ + s@,
            },
    {
        TunnelMode::parse(s)
    }
}

} // verus!
