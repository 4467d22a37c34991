use meow::config::geodata::{parse_geodata, RawGeoDataConfig, RawGeoDataUrls};

fn raw_defaults() -> RawGeoDataConfig {
    RawGeoDataConfig::default()
}

#[test]
fn absent_block_returns_defaults() {
    let cfg = parse_geodata(None).unwrap();
    assert!(!cfg.auto_update);
    assert_eq!(cfg.auto_update_interval, 24);
    assert!(cfg.mmdb_path.is_none());
    assert!(cfg.asn_path.is_none());
    assert!(cfg.geosite_path.is_none());
    assert!(cfg.mmdb_url.contains("country.mmdb"));
    assert!(cfg.asn_url.contains("GeoLite2-ASN"));
    assert!(cfg.geosite_url.contains("geosite.mrs"));
}

#[test]
fn explicit_paths_override_discovery() {
    let raw = RawGeoDataConfig {
        mmdb_path: Some("/custom/Country.mmdb".to_string()),
        asn_path: Some("/custom/ASN.mmdb".to_string()),
        geosite_path: Some("/custom/geosite.mrs".to_string()),
        ..raw_defaults()
    };
    let cfg = parse_geodata(Some(&raw)).unwrap();
    assert_eq!(cfg.mmdb_path.unwrap().as_str(), "/custom/Country.mmdb");
    assert_eq!(cfg.asn_path.unwrap().as_str(), "/custom/ASN.mmdb");
    assert_eq!(cfg.geosite_path.unwrap().as_str(), "/custom/geosite.mrs");
}

#[test]
fn url_overrides_replace_defaults() {
    let raw = RawGeoDataConfig {
        url: Some(RawGeoDataUrls {
            mmdb: Some("https://example.com/country.mmdb".to_string()),
            asn: None,
            geosite: Some("https://example.com/geosite.mrs".to_string()),
        }),
        ..raw_defaults()
    };
    let cfg = parse_geodata(Some(&raw)).unwrap();
    assert_eq!(cfg.mmdb_url, "https://example.com/country.mmdb");
    assert!(cfg.asn_url.contains("GeoLite2-ASN"));
    assert_eq!(cfg.geosite_url, "https://example.com/geosite.mrs");
}

#[test]
fn interval_zero_is_hard_error() {
    let raw = RawGeoDataConfig {
        auto_update_interval: Some(0),
        ..raw_defaults()
    };
    let err = parse_geodata(Some(&raw)).unwrap_err();
    assert!(
        err.to_string().contains("at least 1 hour"),
        "error should mention minimum interval: {err}"
    );
}

#[test]
fn absent_interval_defaults_to_24() {
    let raw = RawGeoDataConfig {
        auto_update: true,
        auto_update_interval: None,
        ..raw_defaults()
    };
    let cfg = parse_geodata(Some(&raw)).unwrap();
    assert_eq!(cfg.auto_update_interval, 24);
}

#[test]
fn upstream_only_fields_do_not_error() {
    let raw = RawGeoDataConfig {
        geodata_mode: Some(serde_yaml::Value::String("memconservative".to_string())),
        geodata_loader: Some(serde_yaml::Value::String("standard".to_string())),
        geoip_matcher: Some(serde_yaml::Value::String("succinct".to_string())),
        ..raw_defaults()
    };
    parse_geodata(Some(&raw)).unwrap();
}

#[test]
fn explicit_interval_and_flag_are_kept() {
    let raw = RawGeoDataConfig {
        auto_update: true,
        auto_update_interval: Some(6),
        ..raw_defaults()
    };
    let cfg = parse_geodata(Some(&raw)).unwrap();
    assert!(cfg.auto_update);
    assert_eq!(cfg.auto_update_interval, 6);
}
