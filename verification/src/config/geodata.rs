//! The `geodata:` configuration block.

use vstd::prelude::*;
use crate::text::owned;

verus! {

#[verifier::external_type_specification]
#[verifier::external_body]
pub struct ExYamlValue(serde_yaml::Value);

pub const DEFAULT_MMDB_URL: &'static str =
    "https://github.com/MetaCubeX/meta-rules-dat/releases/latest/download/country.mmdb";

pub const DEFAULT_ASN_URL: &'static str =
    "https://github.com/P3TERX/GeoLite.mmdb/releases/latest/download/GeoLite2-ASN.mmdb";

pub const DEFAULT_GEOSITE_URL: &'static str =
    "https://github.com/MetaCubeX/meta-rules-dat/releases/latest/download/geosite.mrs";

/// Download URLs given in the `geodata.url` block.
#[derive(Debug, Clone, Default)]
pub struct RawGeoDataUrls {
    pub mmdb: Option<String>,
    pub asn: Option<String>,
    pub geosite: Option<String>,
}

/// The `geodata:` block as written in the configuration file.
#[derive(Debug, Clone, Default)]
pub struct RawGeoDataConfig {
    pub mmdb_path: Option<String>,
    pub asn_path: Option<String>,
    pub geosite_path: Option<String>,
    pub auto_update: bool,
    pub auto_update_interval: Option<u32>,
    pub url: Option<RawGeoDataUrls>,
    /// Accepted for compatibility and ignored.
    pub geodata_mode: Option<serde_yaml::Value>,
    /// Accepted for compatibility and ignored.
    pub geodata_loader: Option<serde_yaml::Value>,
    /// Accepted for compatibility and ignored.
    pub geoip_matcher: Option<serde_yaml::Value>,
}

/// Validated geodata settings.
#[derive(Debug, Clone)]
pub struct GeoDataConfig {
    pub mmdb_path: Option<String>,
    pub asn_path: Option<String>,
    pub geosite_path: Option<String>,
    pub auto_update: bool,
    /// Hours between update checks, at least 1.
    pub auto_update_interval: u32,
    pub mmdb_url: String,
    pub asn_url: String,
    pub geosite_url: String,
}

pub open spec fn opt_view(o: Option<String>) -> Option<Seq<char>> {
    match o {
        Some(s) => Some(s@),
        None => None,
    }
}

/// The given URL, or the default.
pub open spec fn url_or(o: Option<String>, default: Seq<char>) -> Seq<char> {
    match o {
        Some(s) => s@,
        None => default,
    }
}

/// Settings when the block is absent.
pub open spec fn is_default_geodata(c: GeoDataConfig) -> bool {
    &&& c.mmdb_path is None
    &&& c.asn_path is None
    &&& c.geosite_path is None
    &&& !c.auto_update
    &&& c.auto_update_interval == 24
    &&& c.mmdb_url@ == DEFAULT_MMDB_URL@
    &&& c.asn_url@ == DEFAULT_ASN_URL@
    &&& c.geosite_url@ == DEFAULT_GEOSITE_URL@
}

/// Settings read from a block: paths and flag as given, interval 24 when
/// absent, each URL as given or else its default.
pub open spec fn geodata_from(r: RawGeoDataConfig, c: GeoDataConfig) -> bool {
    &&& opt_view(c.mmdb_path) == opt_view(r.mmdb_path)
    &&& opt_view(c.asn_path) == opt_view(r.asn_path)
    &&& opt_view(c.geosite_path) == opt_view(r.geosite_path)
    &&& c.auto_update == r.auto_update
    &&& c.auto_update_interval == r.auto_update_interval.unwrap_or(24)
    &&& c.mmdb_url@ == url_or(
        match r.url {
            Some(u) => u.mmdb,
            None => None,
        },
        DEFAULT_MMDB_URL@,
    )
    &&& c.asn_url@ == url_or(
        match r.url {
            Some(u) => u.asn,
            None => None,
        },
        DEFAULT_ASN_URL@,
    )
    &&& c.geosite_url@ == url_or(
        match r.url {
            Some(u) => u.geosite,
            None => None,
        },
        DEFAULT_GEOSITE_URL@,
    )
}

pub open spec fn interval_zero_message() -> Seq<char> {
    "geodata.auto-update-interval must be at least 1 hour (got 0)"@
}

fn clone_opt(o: &Option<String>) -> (r: Option<String>)
    ensures
        opt_view(r) == opt_view(*o),
{
    match o {
        Some(s) => Some(s.clone()),
        None => None,
    }
}

fn url_or_default(o: &Option<String>, default: &str) -> (r: String)
    ensures
        r@ == url_or(*o, default@),
{
    match o {
        Some(s) => s.clone(),
        None => owned(default),
    }
}

impl GeoDataConfig {
    /// Settings when the block is absent.
    pub fn default() -> (r: Self)
        ensures
            is_default_geodata(r),
    {
        GeoDataConfig {
            mmdb_path: None,
            asn_path: None,
            geosite_path: None,
            auto_update: false,
            auto_update_interval: 24,
            mmdb_url: owned(DEFAULT_MMDB_URL),
            asn_url: owned(DEFAULT_ASN_URL),
            geosite_url: owned(DEFAULT_GEOSITE_URL),
        }
    }
}

/// Validates the raw `geodata:` block; an absent block gives the defaults and
/// an interval of 0 hours is refused.
pub fn parse_geodata(raw: Option<&RawGeoDataConfig>) -> (r: Result<GeoDataConfig, String>)
    ensures
        match raw {
            None => r matches Ok(c) && is_default_geodata(c),
            Some(rc) => if rc.auto_update_interval == Some(0u32) {
                r matches Err(e) && e@ == interval_zero_message()
            } else {
                r matches Ok(c) && geodata_from(*rc, c)
            },
        },
{
    let r = match raw {
        None => return Ok(GeoDataConfig::default()),
        Some(r) => r,
    };
    let interval = match r.auto_update_interval {
        Some(i) => i,
        None => 24,
    };
    if interval == 0 {
        return Err(owned("geodata.auto-update-interval must be at least 1 hour (got 0)"));
    }
    let none: Option<String> = None;
    let (mmdb, asn, geosite) = match &r.url {
        Some(u) => (&u.mmdb, &u.asn, &u.geosite),
        None => (&none, &none, &none),
    };
    Ok(GeoDataConfig {
        mmdb_path: clone_opt(&r.mmdb_path),
        asn_path: clone_opt(&r.asn_path),
        geosite_path: clone_opt(&r.geosite_path),
        auto_update: r.auto_update,
        auto_update_interval: interval,
        mmdb_url: url_or_default(mmdb, DEFAULT_MMDB_URL),
        asn_url: url_or_default(asn, DEFAULT_ASN_URL),
        geosite_url: url_or_default(geosite, DEFAULT_GEOSITE_URL),
    })
}

} // verus!
