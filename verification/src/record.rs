//! The merged record the service answers with and caches: the required geo
//! fields plus the optional enrichment sub-records.

use vstd::prelude::*;
use crate::bgp_api::{BgpApiResult, BgpApiResultView};
use crate::bgptools::{BgpToolsInfo, BgpToolsInfoView};
use crate::cloning::DeepClone;
use crate::rpki::{RpkiValidity, RpkiValidityView};
use crate::whois::{WhoisInfo, WhoisInfoView};

verus! {

/// Everything known about one address or prefix.
pub struct IpInfo {
    pub ip: String,
    pub ip_range: Option<String>,
    pub country: Option<String>,
    pub city: Option<String>,
    pub asn: Option<u32>,
    pub organization: Option<String>,
    pub whois_info: Option<WhoisInfo>,
    pub bgp_info: Option<BgpToolsInfo>,
    pub bgp_api_info: Option<BgpApiResult>,
    pub rpki_info_list: Vec<RpkiValidity>,
}

pub ghost struct IpInfoView {
    pub ip: Seq<char>,
    pub ip_range: Option<Seq<char>>,
    pub country: Option<Seq<char>>,
    pub city: Option<Seq<char>>,
    pub asn: Option<u32>,
    pub organization: Option<Seq<char>>,
    pub whois_info: Option<WhoisInfoView>,
    pub bgp_info: Option<BgpToolsInfoView>,
    pub bgp_api_info: Option<BgpApiResultView>,
    pub rpki_info_list: Seq<RpkiValidityView>,
}

impl DeepView for IpInfo {
    type V = IpInfoView;

    open spec fn deep_view(&self) -> IpInfoView {
        IpInfoView {
            ip: self.ip.deep_view(),
            ip_range: self.ip_range.deep_view(),
            country: self.country.deep_view(),
            city: self.city.deep_view(),
            asn: self.asn,
            organization: self.organization.deep_view(),
            whois_info: self.whois_info.deep_view(),
            bgp_info: self.bgp_info.deep_view(),
            bgp_api_info: self.bgp_api_info.deep_view(),
            rpki_info_list: self.rpki_info_list.deep_view(),
        }
    }
}

impl DeepClone for IpInfo {
    fn deep_clone(&self) -> (res: Self)
        ensures
            res.deep_view() == self.deep_view(),
    {
        IpInfo {
            ip: self.ip.deep_clone(),
            ip_range: self.ip_range.deep_clone(),
            country: self.country.deep_clone(),
            city: self.city.deep_clone(),
            asn: self.asn.deep_clone(),
            organization: self.organization.deep_clone(),
            whois_info: self.whois_info.deep_clone(),
            bgp_info: self.bgp_info.deep_clone(),
            bgp_api_info: self.bgp_api_info.deep_clone(),
            rpki_info_list: self.rpki_info_list.deep_clone(),
        }
    }
}

impl Clone for IpInfo {
    fn clone(&self) -> (res: Self)
        ensures
            res.deep_view() == self.deep_view(),
    {
        self.deep_clone()
    }
}

/// One stored entry: the value, its absolute expiry second, and the bytes
/// it is accounted with.
pub struct Entry {
    pub value: IpInfo,
    pub expires_at: u64,
    pub size_bytes: usize,
}

pub ghost struct EntryView {
    pub value: IpInfoView,
    pub expires_at: u64,
    pub size_bytes: usize,
}

impl DeepView for Entry {
    type V = EntryView;

    open spec fn deep_view(&self) -> EntryView {
        EntryView {
            value: self.value.deep_view(),
            expires_at: self.expires_at,
            size_bytes: self.size_bytes,
        }
    }
}

impl DeepClone for Entry {
    fn deep_clone(&self) -> (res: Self)
        ensures
            res.deep_view() == self.deep_view(),
    {
        Entry {
            value: self.value.deep_clone(),
            expires_at: self.expires_at,
            size_bytes: self.size_bytes,
        }
    }
}

} // verus!
