// The lookup pipeline: classification, the reserved short-circuit, geo
// merging, enrichment folding, and the RPKI fan-out decision.

use ipinfo_core::api::create_response_from_ip_info;
use ipinfo_core::bgp_api::{BgpApiMeta, BgpApiResult};
use ipinfo_core::pipeline::{
    apply_enrichment, begin_lookup, build_geo_record, collect_rpki, enrichment_plan, rpki_plan,
    set_rpki_results, GeoData, LookupStart,
};
use ipinfo_core::rpki::RpkiValidity;
use ipinfo_core::whois::WhoisInfo;

fn geo() -> GeoData {
    GeoData {
        asn: Some(64500),
        organization: Some("Example Org".to_string()),
        city_local: None,
        city_en: Some("Berlin".to_string()),
        city_country_local: None,
        city_country_en: None,
        country_local: Some("Deutschland".to_string()),
        country_en: Some("Germany".to_string()),
    }
}

#[test]
fn loopback_is_answered_with_the_canned_record() {
    match begin_lookup("127.0.0.1") {
        LookupStart::Reserved(rec) => {
            assert_eq!(rec.ip, "127.0.0.1");
            assert_eq!(rec.country.as_deref(), Some("reserved"));
            assert_eq!(rec.organization.as_deref(), Some("reserved"));
            assert!(rec.city.is_none());
            assert!(rec.asn.is_none());
            assert!(rec.whois_info.is_none());
            assert!(rec.bgp_info.is_none());
            assert!(rec.rpki_info_list.is_empty());
        }
        _ => panic!("127.0.0.1 must short-circuit"),
    }
}

#[test]
fn private_address_is_reserved_too() {
    match begin_lookup("10.0.0.5") {
        LookupStart::Reserved(rec) => {
            assert_eq!(rec.country.as_deref(), Some("reserved"));
        }
        _ => panic!("10.0.0.5 must short-circuit"),
    }
}

#[test]
fn reserved_ipv6_addresses() {
    assert!(matches!(begin_lookup("::1"), LookupStart::Reserved(_)));
    assert!(matches!(begin_lookup("fe80::1"), LookupStart::Reserved(_)));
    assert!(matches!(begin_lookup("ff02::1"), LookupStart::Reserved(_)));
    assert!(matches!(begin_lookup("fc00::7"), LookupStart::Reserved(_)));
}

#[test]
fn public_addresses_proceed_to_the_cache() {
    match begin_lookup("8.8.8.8") {
        LookupStart::Query { key, geo_ip, ip_range } => {
            assert_eq!(key, "8.8.8.8");
            assert_eq!(geo_ip, "8.8.8.8");
            assert!(ip_range.is_none());
        }
        _ => panic!("8.8.8.8 is a public address"),
    }
    match begin_lookup("2001:db8::1") {
        // the documentation range is not among the reserved IPv6 rules
        LookupStart::Query { key, .. } => assert_eq!(key, "2001:db8::1"),
        _ => panic!("2001:db8::1 proceeds"),
    }
}

#[test]
fn malformed_inputs_are_invalid() {
    assert!(matches!(begin_lookup("not-an-ip"), LookupStart::Invalid));
    assert!(matches!(begin_lookup("256.1.1.1"), LookupStart::Invalid));
    assert!(matches!(begin_lookup("01.2.3.4"), LookupStart::Invalid));
    assert!(matches!(begin_lookup("1.2.3"), LookupStart::Invalid));
    assert!(matches!(begin_lookup("1:2:3"), LookupStart::Invalid));
    assert!(matches!(begin_lookup("8.8.8.8/33"), LookupStart::Invalid));
    assert!(matches!(begin_lookup("8.8.8.8/"), LookupStart::Invalid));
    assert!(matches!(begin_lookup(""), LookupStart::Invalid));
}

#[test]
fn prefix_lookup_carries_the_range() {
    match begin_lookup("10.1.2.3/8") {
        // 10.0.0.0/8 is private but the prefix form skips the reserved
        // check, as only single addresses are classified
        LookupStart::Query { key, geo_ip, ip_range } => {
            assert_eq!(key, "10.1.2.3/8");
            assert_eq!(geo_ip, "10.1.2.3");
            assert_eq!(ip_range.as_deref(), Some("10.0.0.0 - 10.255.255.255"));
        }
        _ => panic!("a prefix proceeds to the lookup"),
    }
    match begin_lookup("198.51.100.7/28") {
        LookupStart::Query { geo_ip, ip_range, .. } => {
            assert_eq!(geo_ip, "198.51.100.7");
            assert_eq!(ip_range.as_deref(), Some("198.51.100.0 - 198.51.100.15"));
        }
        _ => panic!("a prefix proceeds to the lookup"),
    }
    match begin_lookup("2001:db8::/32") {
        LookupStart::Query { geo_ip, ip_range, .. } => {
            assert_eq!(geo_ip, "2001:db8:0:0:0:0:0:0");
            assert_eq!(
                ip_range.as_deref(),
                Some("2001:db8:0:0:0:0:0:0 - 2001:db8:ffff:ffff:ffff:ffff:ffff:ffff")
            );
        }
        _ => panic!("a v6 prefix proceeds to the lookup"),
    }
}

#[test]
fn geo_record_prefers_localised_names() {
    let rec = build_geo_record("8.8.8.8".to_string(), None, &geo());
    assert_eq!(rec.city.as_deref(), Some("Berlin"));
    // no city-database country name: the country database's localised
    // name wins over its fallback
    assert_eq!(rec.country.as_deref(), Some("Deutschland"));
    assert_eq!(rec.asn, Some(64500));
    let plan = enrichment_plan(&rec);
    assert_eq!(plan, (true, true, true));
}

#[test]
fn city_database_country_wins_when_present() {
    let mut g = geo();
    g.city_country_local = Some("Nippon".to_string());
    let rec = build_geo_record("x".to_string(), None, &g);
    assert_eq!(rec.country.as_deref(), Some("Nippon"));
}

#[test]
fn whois_failure_leaves_the_record_answerable() {
    // the WHOIS provider failed, the geo lookup succeeded: the record
    // still answers, with the WHOIS field absent and geo fields intact
    let mut rec = build_geo_record("8.8.8.8".to_string(), None, &geo());
    apply_enrichment(&mut rec, None, None, None);
    assert!(rec.whois_info.is_none());
    assert_eq!(rec.city.as_deref(), Some("Berlin"));
    assert_eq!(rec.country.as_deref(), Some("Deutschland"));
    assert_eq!(rec.asn, Some(64500));
    let resp = create_response_from_ip_info(&rec, None);
    assert!(resp.whois_info.is_none());
    assert_eq!(resp.info.country.as_deref(), Some("Deutschland"));
    assert!(resp.cached.is_none());
}

#[test]
fn enrichment_fills_only_missing_fields() {
    let mut rec = build_geo_record("8.8.8.8".to_string(), None, &geo());
    let w = WhoisInfo {
        country: Some("US".to_string()),
        netname: Some("NET".to_string()),
        descr: None,
        org: None,
        admin_c: None,
        tech_c: None,
        mnt_by: None,
        last_modified: None,
        raw_response: String::new(),
    };
    apply_enrichment(&mut rec, Some(w), None, None);
    assert_eq!(rec.whois_info.as_ref().unwrap().netname.as_deref(), Some("NET"));
    // a second round must not displace what is already there
    let w2 = WhoisInfo {
        country: None,
        netname: Some("OTHER".to_string()),
        descr: None,
        org: None,
        admin_c: None,
        tech_c: None,
        mnt_by: None,
        last_modified: None,
        raw_response: String::new(),
    };
    apply_enrichment(&mut rec, Some(w2), None, None);
    assert_eq!(rec.whois_info.as_ref().unwrap().netname.as_deref(), Some("NET"));
}

#[test]
fn rpki_fanout_uses_the_first_metadata_with_origins() {
    let mut rec = build_geo_record("8.8.8.8".to_string(), None, &geo());
    rec.bgp_api_info = Some(BgpApiResult {
        prefix: "8.8.8.0/24".to_string(),
        meta: vec![
            BgpApiMeta {
                source_type: Some("rib".to_string()),
                source_id: None,
                origin_asns: None,
                meta_type: None,
            },
            BgpApiMeta {
                source_type: None,
                source_id: None,
                origin_asns: Some(vec!["15169".to_string(), "64500".to_string()]),
                meta_type: None,
            },
        ],
    });
    let (prefix, asns) = rpki_plan(&rec).expect("origins are present");
    assert_eq!(prefix, "8.8.8.0/24");
    assert_eq!(asns, vec!["15169".to_string(), "64500".to_string()]);
}

#[test]
fn rpki_fanout_skipped_without_origins() {
    let rec = build_geo_record("8.8.8.8".to_string(), None, &geo());
    assert!(rpki_plan(&rec).is_none());
}

#[test]
fn rpki_successes_are_collected_in_order() {
    let a = RpkiValidity {
        asn: "15169".to_string(),
        prefix: "8.8.8.0/24".to_string(),
        validity: "valid".to_string(),
        reason: None,
        vrps: None,
    };
    let b = RpkiValidity {
        asn: "64500".to_string(),
        prefix: "8.8.8.0/24".to_string(),
        validity: "invalid".to_string(),
        reason: None,
        vrps: None,
    };
    let collected = collect_rpki(vec![Some(a), None, Some(b)]);
    assert_eq!(collected.len(), 2);
    assert_eq!(collected[0].asn, "15169");
    assert_eq!(collected[1].asn, "64500");

    let mut rec = build_geo_record("8.8.8.8".to_string(), None, &geo());
    set_rpki_results(&mut rec, collected);
    assert_eq!(rec.rpki_info_list.len(), 2);
    let resp = create_response_from_ip_info(&rec, Some(42));
    assert_eq!(resp.rpki_info_list.len(), 2);
    assert_eq!(resp.cached, Some(42));
}
