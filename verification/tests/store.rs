// The cache store: visibility, TTL, overwrite, sweep, and the
// persist-then-load round trip.

use ipinfo_core::bgp_api::{BgpApiMeta, BgpApiResult};
use ipinfo_core::bgptools::{BgpToolsInfo, BgpToolsUpstream};
use ipinfo_core::ip_cache::IpCache;
use ipinfo_core::kv_store::CacheError;
use ipinfo_core::record::IpInfo;
use ipinfo_core::rpki::{RpkiValidity, RpkiVrps};
use ipinfo_core::whois::WhoisInfo;
use ipinfo_core::ENTRY_TTL_SECS;

fn record(ip: &str, country: &str) -> IpInfo {
    IpInfo {
        ip: ip.to_string(),
        ip_range: None,
        country: Some(country.to_string()),
        city: None,
        asn: Some(64500),
        organization: Some("Example Org".to_string()),
        whois_info: None,
        bgp_info: None,
        bgp_api_info: None,
        rpki_info_list: Vec::new(),
    }
}

#[test]
fn set_then_get_returns_value() {
    let now = 1_700_000_000u64;
    let mut cache = IpCache::new(now);
    cache.set("203.0.113.9", record("203.0.113.9", "DE"), now).unwrap();
    let got = cache.get("203.0.113.9", now).expect("fresh entry must be live");
    assert_eq!(got.ip, "203.0.113.9");
    assert_eq!(got.country.as_deref(), Some("DE"));
    assert_eq!(got.asn, Some(64500));
}

#[test]
fn entry_visible_before_deadline_and_gone_after() {
    // the scenario: write with the day-long TTL, read after an hour and
    // after twenty-five hours
    let now = 1_700_000_000u64;
    let mut cache = IpCache::new(now);
    cache.set("203.0.113.9", record("203.0.113.9", "DE"), now).unwrap();
    assert!(cache.get("203.0.113.9", now + 3600).is_some());
    assert!(cache.contains("203.0.113.9", now + 3600));
    let t_25h = now + 25 * 3600;
    assert!(t_25h >= now + ENTRY_TTL_SECS);
    assert!(cache.get("203.0.113.9", t_25h).is_none());
    assert!(!cache.contains("203.0.113.9", t_25h));
}

#[test]
fn expired_entry_invisible_without_sweep() {
    let now = 1_700_000_000u64;
    let mut cache = IpCache::new(now);
    cache.set("198.51.100.7", record("198.51.100.7", "FR"), now).unwrap();
    let later = now + ENTRY_TTL_SECS;  // deadline reached exactly
    assert!(cache.get("198.51.100.7", later).is_none());
    assert!(!cache.contains("198.51.100.7", later));
    // the entry still occupies memory until a sweep runs
    let (entries, bytes) = cache.stats();
    assert_eq!(entries, 1);
    assert!(bytes > 0);
}

#[test]
fn overwrite_keeps_one_entry() {
    // two lookups that raced both write their result: the store ends with
    // exactly one entry for the key, the later value winning
    let now = 1_700_000_000u64;
    let mut cache = IpCache::new(now);
    cache.set("198.51.100.7", record("198.51.100.7", "FR"), now).unwrap();
    cache.set("198.51.100.7", record("198.51.100.7", "BE"), now + 1).unwrap();
    let (entries, _) = cache.stats();
    assert_eq!(entries, 1);
    let got = cache.get("198.51.100.7", now + 2).unwrap();
    assert_eq!(got.country.as_deref(), Some("BE"));
}

#[test]
fn remove_returns_value_and_frees_bytes() {
    let now = 1_700_000_000u64;
    let mut cache = IpCache::new(now);
    cache.set("192.0.2.1", record("192.0.2.1", "NL"), now).unwrap();
    let (_, bytes_before) = cache.stats();
    assert!(bytes_before > 0);
    let removed = cache.remove("192.0.2.1").expect("entry was present");
    assert_eq!(removed.country.as_deref(), Some("NL"));
    let (entries, bytes) = cache.stats();
    assert_eq!(entries, 0);
    assert_eq!(bytes, 0);
    assert!(cache.remove("192.0.2.1").is_none());
}

#[test]
fn sweep_removes_only_expired() {
    let now = 1_700_000_000u64;
    let mut cache = IpCache::new(now);
    cache.set("192.0.2.1", record("192.0.2.1", "NL"), now).unwrap();
    cache.set("192.0.2.2", record("192.0.2.2", "SE"), now + 7200).unwrap();
    // after the first deadline and before the second
    let t = now + ENTRY_TTL_SECS + 10;
    let removed = cache.sweep_expired(t);
    assert_eq!(removed, 1);
    let (entries, _) = cache.stats();
    assert_eq!(entries, 1);
    assert!(cache.get("192.0.2.2", t).is_some());
    assert!(cache.get("192.0.2.1", t).is_none());
}

#[test]
fn persist_then_load_keeps_unexpired_entries() {
    let now = 1_700_000_000u64;
    let mut cache = IpCache::new(now);
    cache.set("192.0.2.1", record("192.0.2.1", "NL"), now).unwrap();
    cache.set("192.0.2.2", record("192.0.2.2", "SE"), now + 7200).unwrap();
    let bytes = cache.snapshot(now + 7300);

    // load while both are live: both survive
    let mut fresh = IpCache::new(0);
    fresh.restore(&bytes, now + 7300).unwrap();
    let (entries, _) = fresh.stats();
    assert_eq!(entries, 2);
    assert_eq!(
        fresh.get("192.0.2.1", now + 7300).unwrap().country.as_deref(),
        Some("NL")
    );

    // load after the first deadline: the expired entry is absent
    let mut later = IpCache::new(0);
    later.restore(&bytes, now + ENTRY_TTL_SECS + 10).unwrap();
    let (entries, _) = later.stats();
    assert_eq!(entries, 1);
    assert!(later.get("192.0.2.1", now + ENTRY_TTL_SECS + 10).is_none());
    let got = later.get("192.0.2.2", now + ENTRY_TTL_SECS + 10).unwrap();
    assert_eq!(got.country.as_deref(), Some("SE"));
}

#[test]
fn restore_rejects_garbage() {
    let mut cache = IpCache::new(0);
    let junk: Vec<u8> = vec![42, 1, 2, 3];
    match cache.restore(&junk, 0) {
        Err(CacheError::SerializationError) => {}
        other => panic!("garbage must be refused, got {:?}", other.is_ok()),
    }
    let (entries, bytes) = cache.stats();
    assert_eq!(entries, 0);
    assert_eq!(bytes, 0);
}

#[test]
fn snapshot_round_trips_nested_records() {
    let now = 1_700_000_000u64;
    let mut rec = record("198.51.100.99", "JP");
    rec.city = Some("Tokyo".to_string());
    rec.whois_info = Some(WhoisInfo {
        country: Some("JP".to_string()),
        netname: Some("EXAMPLE-NET".to_string()),
        descr: Some("example network".to_string()),
        org: None,
        admin_c: Some("XX1-RIPE".to_string()),
        tech_c: None,
        mnt_by: Some("EXAMPLE-MNT".to_string()),
        last_modified: None,
        raw_response: "country: JP\n".to_string(),
    });
    rec.bgp_info = Some(BgpToolsInfo {
        asn: Some("64500".to_string()),
        ip: "198.51.100.99".to_string(),
        prefix: Some("198.51.100.0/24".to_string()),
        country: Some("JP".to_string()),
        registry: Some("apnic".to_string()),
        allocated: Some("2010-01-01".to_string()),
        as_name: Some("Example AS".to_string()),
        upstreams: vec![BgpToolsUpstream { asn: "AS64501".to_string(), name: Some("Up".to_string()) }],
        raw_response: None,
    });
    rec.bgp_api_info = Some(BgpApiResult {
        prefix: "198.51.100.0/24".to_string(),
        meta: vec![BgpApiMeta {
            source_type: Some("rib".to_string()),
            source_id: None,
            origin_asns: Some(vec!["AS64500".to_string()]),
            meta_type: None,
        }],
    });
    rec.rpki_info_list = vec![RpkiValidity {
        asn: "AS64500".to_string(),
        prefix: "198.51.100.0/24".to_string(),
        validity: "valid".to_string(),
        reason: None,
        vrps: Some(vec![RpkiVrps {
            asn: "AS64500".to_string(),
            prefix: "198.51.100.0/24".to_string(),
            max_length: Some("24".to_string()),
        }]),
    }];

    let mut cache = IpCache::new(now);
    cache.set("198.51.100.99", rec, now).unwrap();
    let bytes = cache.snapshot(now);
    let mut fresh = IpCache::new(0);
    fresh.restore(&bytes, now + 1).unwrap();
    let got = fresh.get("198.51.100.99", now + 1).unwrap();
    assert_eq!(got.city.as_deref(), Some("Tokyo"));
    let w = got.whois_info.as_ref().unwrap();
    assert_eq!(w.netname.as_deref(), Some("EXAMPLE-NET"));
    assert_eq!(w.raw_response, "country: JP\n");
    let b = got.bgp_info.as_ref().unwrap();
    assert_eq!(b.upstreams.len(), 1);
    assert_eq!(b.upstreams[0].asn, "AS64501");
    let a = got.bgp_api_info.as_ref().unwrap();
    assert_eq!(a.meta[0].origin_asns.as_ref().unwrap()[0], "AS64500");
    let r = &got.rpki_info_list[0];
    assert_eq!(r.validity, "valid");
    assert_eq!(r.vrps.as_ref().unwrap()[0].max_length.as_deref(), Some("24"));
}
