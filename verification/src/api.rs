//! The answer the service sends for one lookup: a trimmed view of the
//! merged record, assembled field by field from a cached or fresh
//! [`crate::record::IpInfo`].

use vstd::prelude::*;
use crate::bgptools::BgpToolsUpstream;
use crate::cloning::DeepClone;
use crate::record::IpInfo as IpRecord;
use crate::rpki::RpkiValidity;

verus! {

/// The geo part of an answer.
pub struct IpInfo {
    pub ip: String,
    pub ip_range: Option<String>,
    pub country: Option<String>,
    pub city: Option<String>,
    pub asn: Option<u32>,
    pub organization: Option<String>,
}

/// The WHOIS part of an answer.
pub struct WhoisInfoResponse {
    pub netname: Option<String>,
    pub descr: Option<String>,
    pub country: Option<String>,
    pub org: Option<String>,
    pub admin: Option<String>,
    pub maintainer: Option<String>,
}

/// The routing-table part of an answer.
pub struct BgpInfoResponse {
    pub asn: Option<String>,
    pub prefix: Option<String>,
    pub country: Option<String>,
    pub registry: Option<String>,
    pub allocated: Option<String>,
    pub as_name: Option<String>,
    pub upstreams: Vec<BgpToolsUpstream>,
}

/// One whole answer; `cached` carries the read time of a cache hit and is
/// absent on a fresh record.
pub struct IpResponse {
    pub info: IpInfo,
    pub whois_info: Option<WhoisInfoResponse>,
    pub bgp_info: Option<BgpInfoResponse>,
    pub rpki_info_list: Vec<RpkiValidity>,
    pub cached: Option<u64>,
}

/// What the transport sends when a lookup fails.
pub struct ErrorResponse {
    pub status: String,
    pub message: String,
}

/// Shapes a record into the answer, tagging it with the cache read time
/// where there was one.
pub fn create_response_from_ip_info(info: &IpRecord, cached_timestamp: Option<u64>) -> (r:
    IpResponse)
    ensures
        r.info.ip@ == info.ip@,
        r.info.ip_range.deep_view() == info.ip_range.deep_view(),
        r.info.country.deep_view() == info.country.deep_view(),
        r.info.city.deep_view() == info.city.deep_view(),
        r.info.asn == info.asn,
        r.info.organization.deep_view() == info.organization.deep_view(),
        r.whois_info is Some <==> info.whois_info is Some,
        info.whois_info matches Some(w) ==> {
            let o = r.whois_info->0;
            &&& o.netname.deep_view() == w.netname.deep_view()
            &&& o.descr.deep_view() == w.descr.deep_view()
            &&& o.country.deep_view() == w.country.deep_view()
            &&& o.org.deep_view() == w.org.deep_view()
            &&& o.admin.deep_view() == w.admin_c.deep_view()
            &&& o.maintainer.deep_view() == w.mnt_by.deep_view()
        },
        r.bgp_info is Some <==> info.bgp_info is Some,
        info.bgp_info matches Some(b) ==> {
            let o = r.bgp_info->0;
            &&& o.asn.deep_view() == b.asn.deep_view()
            &&& o.prefix.deep_view() == b.prefix.deep_view()
            &&& o.country.deep_view() == b.country.deep_view()
            &&& o.registry.deep_view() == b.registry.deep_view()
            &&& o.allocated.deep_view() == b.allocated.deep_view()
            &&& o.as_name.deep_view() == b.as_name.deep_view()
            &&& o.upstreams.deep_view() == b.upstreams.deep_view()
        },
        r.rpki_info_list.deep_view() == info.rpki_info_list.deep_view(),
        r.cached == cached_timestamp,
{
    let ip_info = IpInfo {
        ip: info.ip.deep_clone(),
        ip_range: info.ip_range.deep_clone(),
        country: info.country.deep_clone(),
        city: info.city.deep_clone(),
        asn: info.asn,
        organization: info.organization.deep_clone(),
    };
    let whois_info = match &info.whois_info {
        None => None,
        Some(w) => Some(
            WhoisInfoResponse {
                netname: w.netname.deep_clone(),
                descr: w.descr.deep_clone(),
                country: w.country.deep_clone(),
                org: w.org.deep_clone(),
                admin: w.admin_c.deep_clone(),
                maintainer: w.mnt_by.deep_clone(),
            },
        ),
    };
    let bgp_info = match &info.bgp_info {
        None => None,
        Some(b) => Some(
            BgpInfoResponse {
                asn: b.asn.deep_clone(),
                prefix: b.prefix.deep_clone(),
                country: b.country.deep_clone(),
                registry: b.registry.deep_clone(),
                allocated: b.allocated.deep_clone(),
                as_name: b.as_name.deep_clone(),
                upstreams: b.upstreams.deep_clone(),
            },
        ),
    };
    IpResponse {
        info: ip_info,
        whois_info,
        bgp_info,
        rpki_info_list: info.rpki_info_list.deep_clone(),
        cached: cached_timestamp,
    }
}

} // verus!
