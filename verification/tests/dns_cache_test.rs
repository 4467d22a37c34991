use meow::common::ip::IpAddress;
use meow::dns::cache::{fnv1a32, per_shard_cap, shard_ip, shard_str, DnsCache};
use std::time::Duration;

fn v4(a: u8, b: u8, c: u8, d: u8) -> IpAddress {
    IpAddress::V4(u32::from_be_bytes([a, b, c, d]))
}

#[test]
fn test_cache_put_and_get() {
    let mut cache = DnsCache::new(100);
    let ips = vec![v4(1, 2, 3, 4)];
    cache.put("example.com", &ips, Duration::from_secs(300));
    let result = cache.get("example.com");
    assert!(result.is_some());
    assert_eq!(result.unwrap(), ips);
}

#[test]
fn test_cache_miss() {
    let mut cache = DnsCache::new(100);
    assert!(cache.get("nonexistent.com").is_none());
}

#[test]
fn test_cache_multiple_ips() {
    let mut cache = DnsCache::new(100);
    let ips = vec![
        v4(1, 1, 1, 1),
        v4(1, 0, 0, 1),
        IpAddress::V6(0x2606_4700_4700_0000_0000_0000_0000_1111),
    ];
    cache.put("cloudflare.com", &ips, Duration::from_secs(60));
    let result = cache.get("cloudflare.com").unwrap();
    assert_eq!(result.len(), 3);
    assert_eq!(result, ips);
}

#[test]
fn test_cache_overwrite() {
    let mut cache = DnsCache::new(100);
    cache.put("example.com", &[v4(1, 1, 1, 1)], Duration::from_secs(300));
    cache.put("example.com", &[v4(8, 8, 8, 8)], Duration::from_secs(300));
    assert_eq!(cache.get("example.com").unwrap(), vec![v4(8, 8, 8, 8)]);
}

#[test]
fn test_cache_expiry_by_clock() {
    let mut cache = DnsCache::new(100);
    cache.put_at("expired.com", &[v4(1, 2, 3, 4)], 1_000);
    assert_eq!(cache.get_at("expired.com", 999), Some(vec![v4(1, 2, 3, 4)]));
    assert!(cache.get_at("expired.com", 1_000).is_none());
    // the expired entry was dropped
    assert!(cache.get_at("expired.com", 0).is_none());
    assert_eq!(cache.forward_len(), 0);
}

#[test]
fn test_cache_clear() {
    let mut cache = DnsCache::new(100);
    cache.put("a.com", &[v4(1, 1, 1, 1)], Duration::from_secs(300));
    cache.put("b.com", &[v4(2, 2, 2, 2)], Duration::from_secs(300));
    assert!(cache.get("a.com").is_some());
    assert!(cache.get("b.com").is_some());
    cache.clear();
    assert!(cache.get("a.com").is_none());
    assert!(cache.get("b.com").is_none());
    assert_eq!(cache.reverse_len(), 0);
}

#[test]
fn test_cache_lru_eviction_under_pressure() {
    const CAP: usize = 64;
    let mut cache = DnsCache::new(CAP);
    for i in 0..(CAP * 4) {
        cache.put(
            &format!("host-{i}.example"),
            &[IpAddress::V4(i as u32)],
            Duration::from_secs(300),
        );
    }
    let live = cache.forward_len();
    assert!(live <= 128, "forward cache must respect per-shard cap (live={live})");
}

#[test]
fn test_cache_zero_capacity_uses_default() {
    let mut cache = DnsCache::new(0);
    cache.put("test.com", &[v4(1, 1, 1, 1)], Duration::from_secs(300));
    assert!(cache.get("test.com").is_some());
}

#[test]
fn test_reverse_lookup_basic() {
    let mut cache = DnsCache::new(100);
    let ip = v4(93, 184, 216, 34);
    cache.put("example.com", &[ip], Duration::from_secs(300));
    assert_eq!(cache.reverse_lookup(ip), Some("example.com".into()));
}

#[test]
fn test_reverse_lookup_miss() {
    let mut cache = DnsCache::new(100);
    assert!(cache.reverse_lookup(v4(1, 2, 3, 4)).is_none());
}

#[test]
fn test_reverse_lookup_multiple_ips() {
    let mut cache = DnsCache::new(100);
    let ip1 = v4(1, 1, 1, 1);
    let ip2 = v4(1, 0, 0, 1);
    cache.put("cloudflare.com", &[ip1, ip2], Duration::from_secs(300));
    assert_eq!(cache.reverse_lookup(ip1), Some("cloudflare.com".into()));
    assert_eq!(cache.reverse_lookup(ip2), Some("cloudflare.com".into()));
}

#[test]
fn test_reverse_lookup_ipv6() {
    let mut cache = DnsCache::new(100);
    let ip = IpAddress::V6(0x2606_4700_4700_0000_0000_0000_0000_1111);
    cache.put("one.one.one.one", &[ip], Duration::from_secs(300));
    assert_eq!(cache.reverse_lookup(ip), Some("one.one.one.one".into()));
}

#[test]
fn test_reverse_lookup_overwrite_same_ip() {
    let mut cache = DnsCache::new(100);
    let ip = v4(93, 184, 216, 34);
    cache.put("old.example.com", &[ip], Duration::from_secs(300));
    cache.put("new.example.com", &[ip], Duration::from_secs(300));
    assert_eq!(cache.reverse_lookup(ip), Some("new.example.com".into()));
}

#[test]
fn test_reverse_lookup_expiry_by_clock() {
    let mut cache = DnsCache::new(100);
    let ip = v4(1, 2, 3, 4);
    cache.put_at("expired.com", &[ip], 50);
    assert_eq!(cache.reverse_lookup_at(ip, 49), Some("expired.com".to_string()));
    assert!(cache.reverse_lookup_at(ip, 50).is_none());
    assert_eq!(cache.reverse_len(), 0);
}

#[test]
fn test_reverse_lookup_clear() {
    let mut cache = DnsCache::new(100);
    let ip = v4(1, 1, 1, 1);
    cache.put("example.com", &[ip], Duration::from_secs(300));
    assert!(cache.reverse_lookup(ip).is_some());
    cache.clear();
    assert!(cache.reverse_lookup(ip).is_none());
}

#[test]
fn test_reverse_lookup_outlives_forward_eviction_under_pressure() {
    const FWD_CAP: usize = 64;
    let mut cache = DnsCache::new(FWD_CAP);
    let total = FWD_CAP * 8;
    for i in 0..total {
        cache.put(&format!("host-{i}.example"), &[IpAddress::V4(i as u32)], Duration::from_secs(300));
    }
    assert!(cache.forward_len() < total, "forward cache must evict under sustained pressure");
    for i in 0..total {
        if let Some(host) = cache.reverse_lookup(IpAddress::V4(i as u32)) {
            assert_eq!(host, format!("host-{i}.example"));
        }
    }
}

#[test]
fn test_cache_different_domains_independent() {
    let mut cache = DnsCache::new(100);
    let ips_a = vec![v4(1, 1, 1, 1)];
    let ips_b = vec![v4(8, 8, 8, 8)];
    cache.put("a.com", &ips_a, Duration::from_secs(300));
    cache.put("b.com", &ips_b, Duration::from_secs(300));
    assert_eq!(cache.get("a.com").unwrap(), ips_a);
    assert_eq!(cache.get("b.com").unwrap(), ips_b);
}

#[test]
fn hashing_and_shard_sizes() {
    assert_eq!(fnv1a32(b""), 0x811c_9dc5);
    assert_eq!(fnv1a32(b"a"), 0xe40c_292c);
    assert_eq!(fnv1a32(b"foobar"), 0xbf9c_f968);
    assert!(shard_str("example.com") < 16);
    assert_eq!(shard_str("a"), (0xe40c_292cu32 & 15) as usize);
    assert!(shard_ip(v4(1, 2, 3, 4)) < 16);
    assert_eq!(shard_ip(v4(0, 0, 0, 0)), (fnv1a32(&[0, 0, 0, 0]) & 15) as usize);
    assert_eq!(per_shard_cap(100, 8), 8);
    assert_eq!(per_shard_cap(1024, 8), 64);
    assert_eq!(per_shard_cap(0, 16), 16);
}

#[test]
fn test_cache_expiry() {
    let mut cache = DnsCache::new(100);
    let ips = vec![v4(1, 2, 3, 4)];

    // Zero TTL: the entry expires at the instant it is stored.
    cache.put("expired.com", &ips, Duration::from_secs(0));
    assert!(cache.get("expired.com").is_none());

    // The same on an explicit clock: alive strictly before its expiry only.
    let mut timed = DnsCache::new(100);
    timed.put_at("t.com", &ips, 1_000);
    assert_eq!(timed.get_at("t.com", 999), Some(ips.clone()));
    assert!(timed.get_at("t.com", 1_000).is_none());
}

#[test]
fn test_reverse_lookup_expiry() {
    let mut cache = DnsCache::new(100);
    let ip = v4(1, 2, 3, 4);
    cache.put("expired.com", &[ip], Duration::from_secs(0));
    assert!(cache.reverse_lookup(ip).is_none());

    let mut timed = DnsCache::new(100);
    timed.put_at("t.com", &[ip], 500);
    assert_eq!(timed.reverse_lookup_at(ip, 499).as_deref(), Some("t.com"));
    assert!(timed.reverse_lookup_at(ip, 500).is_none());
}

#[test]
fn test_cache_sizes_stay_bounded_after_mixed_calls() {
    let mut cache = DnsCache::new(64);
    for i in 0..600u32 {
        let name = format!("h{i}.example");
        cache.put(&name, &[IpAddress::V4(i), IpAddress::V4(i + 100_000)], Duration::from_secs(300));
        let _ = cache.get(&name);
        let _ = cache.reverse_lookup(IpAddress::V4(i / 2));
        if i == 300 {
            cache.clear();
        }
    }
    assert!(cache.forward_len() <= 16 * 8);
    assert!(cache.reverse_len() <= 16 * 16);
}
