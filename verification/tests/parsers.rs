// The text-protocol parsers and the small client decisions around them.

use ipinfo_core::bgp_api::{BgpApiClient, BgpApiResponse, BgpApiResult};
use ipinfo_core::bgptools::BgpToolsClient;
use ipinfo_core::config::{download_url_for, MaxmindUrls};
use ipinfo_core::ip::is_reserved_ip;
use ipinfo_core::rpki::{RpkiClient, RpkiResponse, RpkiRoute, RpkiValidatedRoute, RpkiValidityState};
use ipinfo_core::sched::{sleep_millis, task_due};
use ipinfo_core::whois::WhoisClient;

#[test]
fn whois_parse_reads_the_fields() {
    let text = "\
% This is the RIPE Database query service.
% Comment line

inetnum:        192.0.2.0 - 192.0.2.255
netname:        EXAMPLE-NET
descr:          first description
descr:          second description
country:        NL
org:            ORG-EX1-RIPE
admin-c:        XX1-RIPE
tech-c:         XX2-RIPE
mnt-by:         EXAMPLE-MNT
last-modified:  2020-01-02T03:04:05Z
";
    let info = WhoisClient::parse_response(text);
    assert_eq!(info.country.as_deref(), Some("NL"));
    assert_eq!(info.netname.as_deref(), Some("EXAMPLE-NET"));
    // a repeated descr keeps the first value
    assert_eq!(info.descr.as_deref(), Some("first description"));
    assert_eq!(info.org.as_deref(), Some("ORG-EX1-RIPE"));
    assert_eq!(info.admin_c.as_deref(), Some("XX1-RIPE"));
    assert_eq!(info.tech_c.as_deref(), Some("XX2-RIPE"));
    assert_eq!(info.mnt_by.as_deref(), Some("EXAMPLE-MNT"));
    assert_eq!(info.last_modified.as_deref(), Some("2020-01-02T03:04:05Z"));
    assert_eq!(info.raw_response, text);
}

#[test]
fn whois_parse_organisation_spelling_and_last_wins() {
    let text = "country: AA\ncountry: BB\norganisation: Example Body\n";
    let info = WhoisClient::parse_response(text);
    assert_eq!(info.country.as_deref(), Some("BB"));
    assert_eq!(info.org.as_deref(), Some("Example Body"));
    assert!(info.netname.is_none());
}

#[test]
fn bgptools_parse_takes_the_first_data_line() {
    let text = "\
AS      | IP               | BGP Prefix          | CC | Registry | Allocated  | AS Name
13335   | 1.1.1.1          | 1.1.1.0/24          | US | ARIN     | 2010-07-14 | Cloudflare, Inc.
64500   | 1.1.1.2          | 1.0.0.0/8           | AU | APNIC    | 2011-08-11 | Other
";
    let info = BgpToolsClient::parse_whois_response(text, "1.1.1.1");
    assert_eq!(info.ip, "1.1.1.1");
    assert_eq!(info.asn.as_deref(), Some("13335"));
    assert_eq!(info.prefix.as_deref(), Some("1.1.1.0/24"));
    assert_eq!(info.country.as_deref(), Some("US"));
    assert_eq!(info.registry.as_deref(), Some("ARIN"));
    assert_eq!(info.allocated.as_deref(), Some("2010-07-14"));
    assert_eq!(info.as_name.as_deref(), Some("Cloudflare, Inc."));
    assert!(info.upstreams.is_empty());
    assert_eq!(info.raw_response.as_deref(), Some(text));
}

#[test]
fn bgptools_parse_with_no_data_line_leaves_fields_empty() {
    let text = "AS | IP | BGP Prefix | CC | Registry | Allocated | AS Name\n# nothing found\n";
    let info = BgpToolsClient::parse_whois_response(text, "203.0.113.9");
    assert!(info.asn.is_none());
    assert!(info.prefix.is_none());
    assert!(info.as_name.is_none());
    assert_eq!(info.ip, "203.0.113.9");
}

#[test]
fn rpki_client_trims_trailing_slashes() {
    let c = RpkiClient::new("http://validator.example/");
    assert_eq!(c.base_url, "http://validator.example");
    let url = c.query_url("8.8.8.0/24", "15169");
    assert_eq!(url, "http://validator.example/api/v1/validity/15169/8.8.8.0/24");
}

#[test]
fn rpki_answer_maps_to_a_validity_record() {
    let resp = RpkiResponse {
        validated_route: Some(RpkiValidatedRoute {
            route: RpkiRoute { origin_asn: "AS15169".to_string(), prefix: "8.8.8.0/24".to_string() },
            validity: RpkiValidityState {
                state: "valid".to_string(),
                description: "At least one VRP matches".to_string(),
            },
            vrps: None,
        }),
        generated_time: None,
    };
    let v = RpkiClient::validity_from_response("15169", "8.8.8.0/24", resp);
    assert_eq!(v.validity, "valid");
    assert_eq!(v.asn, "15169");
    assert_eq!(v.prefix, "8.8.8.0/24");

    let missing = RpkiResponse { validated_route: None, generated_time: None };
    let v2 = RpkiClient::validity_from_response("15169", "8.8.8.0/24", missing);
    assert_eq!(v2.validity, "not-found");
    assert!(v2.vrps.is_none());
}

#[test]
fn bgp_api_query_prefix_follows_the_family() {
    assert_eq!(BgpApiClient::query_prefix_for("1.2.3.4"), "1.2.3.4/32");
    assert_eq!(BgpApiClient::query_prefix_for("2001:db8::1"), "2001:db8::1/128");
}

#[test]
fn bgp_api_answer_without_result_is_a_failure() {
    let with = BgpApiResponse {
        response_type: "prefix".to_string(),
        prefix: "1.0.0.0/8".to_string(),
        result: Some(BgpApiResult { prefix: "1.0.0.0/8".to_string(), meta: Vec::new() }),
    };
    assert!(BgpApiClient::result_from_response(with).is_some());
    let without = BgpApiResponse {
        response_type: "prefix".to_string(),
        prefix: "1.0.0.0/8".to_string(),
        result: None,
    };
    assert!(BgpApiClient::result_from_response(without).is_none());
}

#[test]
fn reserved_rules_by_family() {
    assert!(is_reserved_ip("127.0.0.1"));
    assert!(is_reserved_ip("10.0.0.5"));
    assert!(is_reserved_ip("172.16.0.1"));
    assert!(is_reserved_ip("192.168.1.1"));
    assert!(is_reserved_ip("169.254.10.10"));
    assert!(is_reserved_ip("255.255.255.255"));
    assert!(is_reserved_ip("192.0.2.55"));
    assert!(is_reserved_ip("0.1.2.3"));
    assert!(!is_reserved_ip("8.8.8.8"));
    assert!(!is_reserved_ip("172.32.0.1"));
    assert!(is_reserved_ip("::"));
    assert!(is_reserved_ip("::1"));
    assert!(is_reserved_ip("fe80::1"));
    assert!(is_reserved_ip("fdab::1"));
    assert!(is_reserved_ip("ff05::2"));
    assert!(!is_reserved_ip("2001:db8::1"));
    assert!(!is_reserved_ip("not an ip"));
    assert!(!is_reserved_ip("10.0.0.5/8"));
}

#[test]
fn scheduler_arithmetic() {
    assert!(task_due(2000, 1000, 1000));
    assert!(!task_due(1999, 1000, 1000));
    assert!(!task_due(500, 1000, 1000));
    assert_eq!(sleep_millis(1000, 1000, 5000), 5000);
    assert_eq!(sleep_millis(5900, 1000, 5000), 1000);
    assert_eq!(sleep_millis(9000, 1000, 5000), 1000);
}

#[test]
fn download_urls_by_database_kind() {
    let urls = MaxmindUrls {
        asn: "https://example.net/asn.tar.gz".to_string(),
        city: "https://example.net/city.tar.gz".to_string(),
        country: "https://example.net/country.tar.gz".to_string(),
    };
    assert_eq!(download_url_for(&urls, "asn").as_deref(), Some("https://example.net/asn.tar.gz"));
    assert_eq!(download_url_for(&urls, "city").as_deref(), Some("https://example.net/city.tar.gz"));
    assert_eq!(
        download_url_for(&urls, "country").as_deref(),
        Some("https://example.net/country.tar.gz")
    );
    assert!(download_url_for(&urls, "continent").is_none());
}
