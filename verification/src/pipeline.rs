//! The decision logic of one lookup, as pure steps the surrounding program
//! drives: classify the input, short-circuit reserved addresses, build the
//! fresh record from the required geo lookup, fold in whatever optional
//! enrichments arrived, and pick the RPKI queries to fan out.  Everything
//! that waits on a socket lives outside; every decision lives here.

use vstd::prelude::*;
use crate::bgp_api::{BgpApiMetaView, BgpApiResult};
use crate::bgptools::BgpToolsInfo;
use crate::cloning::{push_char, DeepClone};
use vstd::string::StringExecFns;
use crate::ip::{
    all_digits, chars_of, dec_val, find_char, format_v4, format_v6, is_reserved_ip, parse_ipv4,
    parse_ipv6, parse_v4_vec, parse_v6_vec, spec_is_reserved, v4_string, v6_string,
};
use crate::record::IpInfo;
use crate::rpki::{RpkiValidity, RpkiValidityView};
use crate::whois::WhoisInfo;

verus! {

/// Why a lookup was refused.
#[derive(Clone, Copy, PartialEq, Eq, Structural, Debug)]
pub enum LookupError {
    /// The input is neither an address nor a prefix the grammar accepts.
    InvalidInput,
    /// The required geo lookup failed; nothing is answered or cached.
    PrimaryLookupFailed,
}

// ---------------------------------------------------------------------------
// Prefixes
// ---------------------------------------------------------------------------

/// A prefix length: one to three digits, within `max`.
pub open spec fn valid_prefix_len(s: Seq<char>, max: int) -> bool {
    1 <= s.len() <= 3 && all_digits(s) && dec_val(s) <= max
}

pub open spec fn v4_value(o: Seq<u8>) -> u32 {
    ((o[0] as u32) << 24) | ((o[1] as u32) << 16) | ((o[2] as u32) << 8) | (o[3] as u32)
}

pub open spec fn v4_mask(p: int) -> u32 {
    if p <= 0 {
        0u32
    } else {
        (!0u32) << ((32 - p) as u32)
    }
}

pub open spec fn v4_octets(x: u32) -> Seq<u8> {
    seq![
        ((x >> 24) & 0xff) as u8,
        ((x >> 16) & 0xff) as u8,
        ((x >> 8) & 0xff) as u8,
        (x & 0xff) as u8,
    ]
}

pub open spec fn v6_value(g: Seq<u16>) -> u128 {
    ((g[0] as u128) << 112) | ((g[1] as u128) << 96) | ((g[2] as u128) << 80) | ((g[3]
        as u128) << 64) | ((g[4] as u128) << 48) | ((g[5] as u128) << 32) | ((g[6] as u128) << 16)
        | (g[7] as u128)
}

pub open spec fn v6_mask(p: int) -> u128 {
    if p <= 0 {
        0u128
    } else {
        (!0u128) << ((128 - p) as u128)
    }
}

pub open spec fn v6_groups(x: u128) -> Seq<u16> {
    seq![
        ((x >> 112) & 0xffff) as u16,
        ((x >> 96) & 0xffff) as u16,
        ((x >> 80) & 0xffff) as u16,
        ((x >> 64) & 0xffff) as u16,
        ((x >> 48) & 0xffff) as u16,
        ((x >> 32) & 0xffff) as u16,
        ((x >> 16) & 0xffff) as u16,
        (x & 0xffff) as u16,
    ]
}

/// The network/broadcast pair of an IPv4 prefix, as text.
pub open spec fn v4_range_string(o: Seq<u8>, p: int) -> Seq<char> {
    v4_string(v4_octets(v4_value(o) & v4_mask(p))) + seq![' ', '-', ' '] + v4_string(
        v4_octets(v4_value(o) | !v4_mask(p)),
    )
}

/// The first/last address pair of an IPv6 prefix, as text.
pub open spec fn v6_range_string(g: Seq<u16>, p: int) -> Seq<char> {
    v6_string(v6_groups(v6_value(g) & v6_mask(p))) + seq![' ', '-', ' '] + v6_string(
        v6_groups(v6_value(g) | !v6_mask(p)),
    )
}

/// What the input asks for, after parsing.
pub open spec fn spec_classify(s: Seq<char>) -> SpecQuery {
    if spec_is_reserved(s) {
        SpecQuery::Reserved
    } else {
        let i = find_char(s, '/');
        if i < 0 {
            if parse_ipv4(s) is Some || parse_ipv6(s) is Some {
                SpecQuery::Single
            } else {
                SpecQuery::Invalid
            }
        } else {
            let addr = s.take(i);
            let plen = s.skip(i + 1);
            if i + 1 <= s.len() && parse_ipv4(addr) is Some && valid_prefix_len(plen, 32) {
                SpecQuery::PrefixV4(parse_ipv4(addr)->Some_0, dec_val(plen))
            } else if i + 1 <= s.len() && parse_ipv6(addr) is Some && valid_prefix_len(plen, 128) {
                SpecQuery::PrefixV6(parse_ipv6(addr)->Some_0, dec_val(plen))
            } else {
                SpecQuery::Invalid
            }
        }
    }
}

pub ghost enum SpecQuery {
    Invalid,
    Reserved,
    Single,
    PrefixV4(Seq<u8>, int),
    PrefixV6(Seq<u16>, int),
}

/// The canned record a reserved address is answered with.
pub open spec fn reserved_record_view(ip: Seq<char>) -> crate::record::IpInfoView {
    crate::record::IpInfoView {
        ip: ip,
        ip_range: None,
        country: Some("reserved"@),
        city: None,
        asn: None,
        organization: Some("reserved"@),
        whois_info: None,
        bgp_info: None,
        bgp_api_info: None,
        rpki_info_list: Seq::empty(),
    }
}

/// The first step of a lookup.
pub enum LookupStart {
    /// The input is malformed; answer `InvalidInput`.
    Invalid,
    /// A reserved address: answer this canned record at once, asking no
    /// provider and touching no cache.
    Reserved(IpInfo),
    /// Consult the cache under `key`; on a miss, geo-look-up `geo_ip` and
    /// carry `ip_range` into the fresh record.
    Query { key: String, geo_ip: String, ip_range: Option<String> },
}

/// Classifies the input and short-circuits reserved addresses.
#[verifier::rlimit(100)]
pub fn begin_lookup(input: &str) -> (r: LookupStart)
    ensures
        match r {
            LookupStart::Invalid => spec_classify(input@) is Invalid,
            LookupStart::Reserved(rec) => spec_classify(input@) is Reserved
                && rec.deep_view() == reserved_record_view(input@),
            LookupStart::Query { key, geo_ip, ip_range } => {
                &&& key@ == input@
                &&& match spec_classify(input@) {
                    SpecQuery::Single => geo_ip@ == input@ && ip_range is None,
                    SpecQuery::PrefixV4(o, p) => geo_ip@ == v4_string(o) && ip_range is Some
                        && ip_range->0@ == v4_range_string(o, p),
                    SpecQuery::PrefixV6(g, p) => geo_ip@ == v6_string(g) && ip_range is Some
                        && ip_range->0@ == v6_range_string(g, p),
                    _ => false,
                }
            },
        },
{
    if is_reserved_ip(input) {
        let rec = IpInfo {
            ip: String::from_str(input),
            ip_range: None,
            country: Some(String::from_str("reserved")),
            city: None,
            asn: None,
            organization: Some(String::from_str("reserved")),
            whois_info: None,
            bgp_info: None,
            bgp_api_info: None,
            rpki_info_list: Vec::new(),
        };
        proof {
            assert(rec.rpki_info_list.deep_view() =~= Seq::<RpkiValidityView>::empty());
        }
        return LookupStart::Reserved(rec);
    }
    let v = chars_of(input);
    let ghost s = input@;
    match crate::ip::find_char_pub(&v, '/') {
        None => {
            proof {
                assert(v@.skip(0) =~= v@);
            }
            if parse_v4_vec(&v).is_some() || parse_v6_vec(&v).is_some() {
                LookupStart::Query {
                    key: String::from_str(input),
                    geo_ip: String::from_str(input),
                    ip_range: None,
                }
            } else {
                LookupStart::Invalid
            }
        },
        Some(i) => {
            let ghost addr = s.take(i as int);
            let ghost plen_s = s.skip(i + 1);
            let addr_v = crate::ip::slice_chars(&v, 0, i);
            let n = v.len();
            let plen = crate::ip::parse_prefix_len(&v, i + 1, n);
            proof {
                assert(addr_v@ == s.take(i as int));
                assert(v@.subrange(i + 1, n as int) =~= s.skip(i + 1));
            }
            let o4 = parse_v4_vec(&addr_v);
            let g6 = parse_v6_vec(&addr_v);
            if o4.is_some() && plen.is_some() && plen.unwrap() <= 32 {
                let o = o4.unwrap();
                let p = plen.unwrap();
                let val = ((o[0] as u32) << 24) | ((o[1] as u32) << 16) | ((o[2] as u32) << 8) | (
                o[3] as u32);
                let mask: u32 = if p == 0 {
                    0
                } else {
                    (!0u32) << ((32 - p) as u32)
                };
                let net = val & mask;
                let bc = val | !mask;
                let geo_ip = format_v4(o[0], o[1], o[2], o[3]);
                let mut range = format_v4(
                    ((net >> 24) & 0xff) as u8,
                    ((net >> 16) & 0xff) as u8,
                    ((net >> 8) & 0xff) as u8,
                    (net & 0xff) as u8,
                );
                push_char(&mut range, ' ');
                push_char(&mut range, '-');
                push_char(&mut range, ' ');
                let bcs = format_v4(
                    ((bc >> 24) & 0xff) as u8,
                    ((bc >> 16) & 0xff) as u8,
                    ((bc >> 8) & 0xff) as u8,
                    (bc & 0xff) as u8,
                );
                range.append(bcs.as_str());
                proof {
                    assert(o@ =~= seq![o@[0], o@[1], o@[2], o@[3]]);
                    assert(v4_octets(net) =~= seq![
                        ((net >> 24) & 0xff) as u8,
                        ((net >> 16) & 0xff) as u8,
                        ((net >> 8) & 0xff) as u8,
                        (net & 0xff) as u8,
                    ]);
                    assert(v4_octets(bc) =~= seq![
                        ((bc >> 24) & 0xff) as u8,
                        ((bc >> 16) & 0xff) as u8,
                        ((bc >> 8) & 0xff) as u8,
                        (bc & 0xff) as u8,
                    ]);
                    assert(range@ =~= v4_range_string(o@, p as int));
                }
                LookupStart::Query { key: String::from_str(input), geo_ip, ip_range: Some(range) }
            } else if g6.is_some() && plen.is_some() && plen.unwrap() <= 128 {
                let g = g6.unwrap();
                let p = plen.unwrap();
                let val = ((g[0] as u128) << 112) | ((g[1] as u128) << 96) | ((g[2] as u128) << 80)
                    | ((g[3] as u128) << 64) | ((g[4] as u128) << 48) | ((g[5] as u128) << 32) | ((
                g[6] as u128) << 16) | (g[7] as u128);
                let mask: u128 = if p == 0 {
                    0
                } else {
                    (!0u128) << ((128 - p) as u128)
                };
                let net = val & mask;
                let bc = val | !mask;
                let geo_ip = format_v6(&g);
                let mut netg: Vec<u16> = Vec::new();
                netg.push(((net >> 112) & 0xffff) as u16);
                netg.push(((net >> 96) & 0xffff) as u16);
                netg.push(((net >> 80) & 0xffff) as u16);
                netg.push(((net >> 64) & 0xffff) as u16);
                netg.push(((net >> 48) & 0xffff) as u16);
                netg.push(((net >> 32) & 0xffff) as u16);
                netg.push(((net >> 16) & 0xffff) as u16);
                netg.push((net & 0xffff) as u16);
                let mut bcg: Vec<u16> = Vec::new();
                bcg.push(((bc >> 112) & 0xffff) as u16);
                bcg.push(((bc >> 96) & 0xffff) as u16);
                bcg.push(((bc >> 80) & 0xffff) as u16);
                bcg.push(((bc >> 64) & 0xffff) as u16);
                bcg.push(((bc >> 48) & 0xffff) as u16);
                bcg.push(((bc >> 32) & 0xffff) as u16);
                bcg.push(((bc >> 16) & 0xffff) as u16);
                bcg.push((bc & 0xffff) as u16);
                proof {
                    assert(g@ =~= seq![g@[0], g@[1], g@[2], g@[3], g@[4], g@[5], g@[6], g@[7]]);
                    assert(netg@ =~= v6_groups(net));
                    assert(bcg@ =~= v6_groups(bc));
                }
                let mut range = format_v6(&netg);
                push_char(&mut range, ' ');
                push_char(&mut range, '-');
                push_char(&mut range, ' ');
                let bcs = format_v6(&bcg);
                range.append(bcs.as_str());
                assert(range@ =~= v6_range_string(g@, p as int));
                LookupStart::Query { key: String::from_str(input), geo_ip, ip_range: Some(range) }
            } else {
                LookupStart::Invalid
            }
        },
    }
}

// ---------------------------------------------------------------------------
// The fresh record and its enrichment
// ---------------------------------------------------------------------------

/// What the geo databases answer for one address: names in the preferred
/// localisation and in the fallback one.
pub struct GeoData {
    pub asn: Option<u32>,
    pub organization: Option<String>,
    pub city_local: Option<String>,
    pub city_en: Option<String>,
    pub city_country_local: Option<String>,
    pub city_country_en: Option<String>,
    pub country_local: Option<String>,
    pub country_en: Option<String>,
}

pub open spec fn first_of(a: Option<Seq<char>>, b: Option<Seq<char>>) -> Option<Seq<char>> {
    if a is Some {
        a
    } else {
        b
    }
}

fn choose2(a: &Option<String>, b: &Option<String>) -> (r: Option<String>)
    ensures
        r.deep_view() == first_of(a.deep_view(), b.deep_view()),
{
    match a {
        Some(s) => Some(s.clone()),
        None => match b {
            Some(s) => Some(s.clone()),
            None => None,
        },
    }
}

/// Builds the fresh record from the required geo lookup: the city name
/// prefers the localised form; the country prefers the city database's
/// name and falls back to the country database's.
pub fn build_geo_record(ip: String, ip_range: Option<String>, geo: &GeoData) -> (r: IpInfo)
    ensures
        r.ip@ == ip@,
        r.ip_range.deep_view() == ip_range.deep_view(),
        r.asn == geo.asn,
        r.organization.deep_view() == geo.organization.deep_view(),
        r.city.deep_view() == first_of(geo.city_local.deep_view(), geo.city_en.deep_view()),
        r.country.deep_view() == first_of(
            first_of(geo.city_country_local.deep_view(), geo.city_country_en.deep_view()),
            first_of(geo.country_local.deep_view(), geo.country_en.deep_view()),
        ),
        r.whois_info is None,
        r.bgp_info is None,
        r.bgp_api_info is None,
        r.rpki_info_list@.len() == 0,
{
    let city_country = choose2(&geo.city_country_local, &geo.city_country_en);
    let plain_country = choose2(&geo.country_local, &geo.country_en);
    let country = match city_country {
        Some(c) => Some(c),
        None => plain_country,
    };
    IpInfo {
        ip,
        ip_range,
        country,
        city: choose2(&geo.city_local, &geo.city_en),
        asn: geo.asn,
        organization: geo.organization.deep_clone(),
        whois_info: None,
        bgp_info: None,
        bgp_api_info: None,
        rpki_info_list: Vec::new(),
    }
}

/// Which optional enrichments a record still lacks: WHOIS, routing table,
/// routing prefix.
pub fn enrichment_plan(rec: &IpInfo) -> (r: (bool, bool, bool))
    ensures
        r.0 == (rec.whois_info is None),
        r.1 == (rec.bgp_info is None),
        r.2 == (rec.bgp_api_info is None),
{
    (rec.whois_info.is_none(), rec.bgp_info.is_none(), rec.bgp_api_info.is_none())
}

/// Folds the enrichment results into the record: a result fills its field
/// only where the field was missing; a missing result leaves the field
/// empty; nothing else changes.
pub fn apply_enrichment(
    rec: &mut IpInfo,
    whois: Option<WhoisInfo>,
    bgp: Option<BgpToolsInfo>,
    bgp_api: Option<BgpApiResult>,
)
    ensures
        final(rec).whois_info.deep_view() == (if old(rec).whois_info is Some {
            old(rec).whois_info.deep_view()
        } else {
            whois.deep_view()
        }),
        final(rec).bgp_info.deep_view() == (if old(rec).bgp_info is Some {
            old(rec).bgp_info.deep_view()
        } else {
            bgp.deep_view()
        }),
        final(rec).bgp_api_info.deep_view() == (if old(rec).bgp_api_info is Some {
            old(rec).bgp_api_info.deep_view()
        } else {
            bgp_api.deep_view()
        }),
        final(rec).ip == old(rec).ip,
        final(rec).ip_range == old(rec).ip_range,
        final(rec).country == old(rec).country,
        final(rec).city == old(rec).city,
        final(rec).asn == old(rec).asn,
        final(rec).organization == old(rec).organization,
        final(rec).rpki_info_list == old(rec).rpki_info_list,
{
    if rec.whois_info.is_none() {
        rec.whois_info = whois;
    }
    if rec.bgp_info.is_none() {
        rec.bgp_info = bgp;
    }
    if rec.bgp_api_info.is_none() {
        rec.bgp_api_info = bgp_api;
    }
}

/// The origin ASNs of the first metadata entry that names any.
pub open spec fn first_origin_asns(metas: Seq<BgpApiMetaView>) -> Option<Seq<Seq<char>>>
    decreases metas.len(),
{
    if metas.len() == 0 {
        None
    } else if metas[0].origin_asns is Some {
        metas[0].origin_asns
    } else {
        first_origin_asns(metas.skip(1))
    }
}

/// Decides the RPKI fan-out: one query per origin ASN of the first
/// metadata entry that names origin ASNs, all against the found prefix;
/// none when the routing-prefix lookup gave nothing usable.
pub fn rpki_plan(rec: &IpInfo) -> (r: Option<(String, Vec<String>)>)
    ensures
        match r {
            Some((prefix, asns)) => {
                &&& rec.bgp_api_info is Some
                &&& prefix@ == rec.bgp_api_info->0.prefix@
                &&& Some(asns.deep_view()) == first_origin_asns(
                    rec.bgp_api_info->0.meta.deep_view(),
                )
            },
            None => rec.bgp_api_info is None || first_origin_asns(
                rec.bgp_api_info->0.meta.deep_view(),
            ) is None,
        },
{
    match &rec.bgp_api_info {
        None => None,
        Some(b) => {
            let n = b.meta.len();
            let ghost metas = b.meta.deep_view();
            proof {
                assert(metas.len() == n);
            }
            let mut i: usize = 0;
            proof {
                assert(metas.skip(0) =~= metas);
            }
            while i < n
                invariant
                    rec.bgp_api_info == Some(*b),
                    n == b.meta@.len(),
                    metas == b.meta.deep_view(),
                    metas.len() == n,
                    i <= n,
                    first_origin_asns(metas) == first_origin_asns(metas.skip(i as int)),
                    forall|j: int| 0 <= j < i ==> metas[j].origin_asns is None,
                decreases n - i,
            {
                proof {
                    assert(b.meta.deep_view()[i as int] == b.meta@[i as int].deep_view());
                    assert(metas.skip(i as int)[0] == metas[i as int]);
                    assert(metas.skip(i as int).skip(1) =~= metas.skip(i + 1));
                }
                match &b.meta[i].origin_asns {
                    Some(asns) => {
                        proof {
                            assert(metas[i as int].origin_asns is Some);
                            assert(first_origin_asns(metas.skip(i as int)) == metas[
                                i as int
                            ].origin_asns);
                            assert(metas[i as int].origin_asns == Some(asns.deep_view()));
                        }
                        return Some((b.prefix.deep_clone(), asns.deep_clone()));
                    },
                    None => {
                    },
                }
                i = i + 1;
            }
            proof {
                assert(metas.skip(n as int) =~= Seq::<BgpApiMetaView>::empty());
            }
            None
        },
    }
}

/// The successful results, in the order they stand.
pub open spec fn successes(s: Seq<Option<RpkiValidityView>>) -> Seq<RpkiValidityView>
    decreases s.len(),
{
    if s.len() == 0 {
        Seq::empty()
    } else if s.last() is Some {
        successes(s.drop_last()).push(s.last()->0)
    } else {
        successes(s.drop_last())
    }
}

/// Keeps the successful RPKI answers, dropping the failures, in order.
pub fn collect_rpki(results: Vec<Option<RpkiValidity>>) -> (r: Vec<RpkiValidity>)
    ensures
        r.deep_view() == successes(results.deep_view()),
{
    let n = results.len();
    let ghost rs = results.deep_view();
    proof {
        assert(rs.len() == n);
    }
    let mut out: Vec<RpkiValidity> = Vec::new();
    proof {
        assert(rs.take(0) =~= Seq::<Option<RpkiValidityView>>::empty());
        assert(out.deep_view() =~= successes(rs.take(0)));
    }
    let it = results;
    let mut idx: usize = 0;
    while idx < n
        invariant
            n == it@.len(),
            it.deep_view() == rs,
            rs.len() == n,
            idx <= n,
            out@.len() == out.deep_view().len(),
            out.deep_view() == successes(rs.take(idx as int)),
        decreases n - idx,
    {
        proof {
            assert(it.deep_view()[idx as int] == it@[idx as int].deep_view());
            let t = rs.take(idx + 1);
            assert(t.drop_last() =~= rs.take(idx as int));
            assert(t.last() == rs[idx as int]);
        }
        match &it[idx] {
            Some(v) => {
                let ghost prev = out.deep_view();
                let c = v.deep_clone();
                out.push(c);
                proof {
                    assert(out.deep_view() =~= prev.push(rs[idx as int]->0)) by {
                        assert(forall|j: int|
                            0 <= j < out@.len() ==> out.deep_view()[j] == out@[j].deep_view());
                    }
                }
            },
            None => {
            },
        }
        idx = idx + 1;
    }
    proof {
        assert(rs.take(n as int) =~= rs);
    }
    out
}

/// Installs the collected RPKI answers; nothing else changes.
pub fn set_rpki_results(rec: &mut IpInfo, list: Vec<RpkiValidity>)
    ensures
        final(rec).rpki_info_list == list,
        final(rec).ip == old(rec).ip,
        final(rec).ip_range == old(rec).ip_range,
        final(rec).country == old(rec).country,
        final(rec).city == old(rec).city,
        final(rec).asn == old(rec).asn,
        final(rec).organization == old(rec).organization,
        final(rec).whois_info == old(rec).whois_info,
        final(rec).bgp_info == old(rec).bgp_info,
        final(rec).bgp_api_info == old(rec).bgp_api_info,
{
    rec.rpki_info_list = list;
}

/// Law: a failed WHOIS enrichment leaves that field absent and every geo
/// field exactly as the primary lookup set it — the request still answers.
pub proof fn lemma_enrichment_failure_is_not_fatal(
    pre: IpInfo,
    post: IpInfo,
    bgp: Option<BgpToolsInfo>,
    bgp_api: Option<BgpApiResult>,
)
    requires
        pre.whois_info is None,
        post.whois_info.deep_view() == Option::<WhoisInfo>::None.deep_view(),
        post.country == pre.country,
        post.city == pre.city,
        post.asn == pre.asn,
        post.organization == pre.organization,
    ensures
        post.whois_info is None,
        post.country == pre.country && post.city == pre.city && post.asn == pre.asn
            && post.organization == pre.organization,
{
    if post.whois_info is Some {
        assert(post.whois_info.deep_view() is Some);
    }
}

} // verus!
