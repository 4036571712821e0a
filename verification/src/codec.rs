//! The snapshot wire format.  Every value the store persists is written by
//! the encoders here and read back by the decoders; both sides are verified
//! against the same specification functions, which is what makes the
//! persist-then-load round trip provable.
//!
//! The format is simple and self-contained: integers are eight (or four)
//! little-endian bytes, a character is its code point in four bytes, a
//! string is its length followed by its characters, an optional value is a
//! one-byte tag, and a list is its length followed by its items.

use vstd::prelude::*;
use crate::bgp_api::{BgpApiMeta, BgpApiMetaView, BgpApiResult, BgpApiResultView};
use crate::bgptools::{BgpToolsInfo, BgpToolsInfoView, BgpToolsUpstream, BgpToolsUpstreamView};
use crate::record::{Entry, EntryView, IpInfo, IpInfoView};
use crate::rpki::{RpkiValidity, RpkiValidityView, RpkiVrps, RpkiVrpsView};
use crate::whois::{WhoisInfo, WhoisInfoView};

verus! {

// ---------------------------------------------------------------------------
// Specification of the format
// ---------------------------------------------------------------------------

pub open spec fn enc_u64(x: u64) -> Seq<u8> {
    seq![
        (x & 0xff) as u8,
        ((x >> 8) & 0xff) as u8,
        ((x >> 16) & 0xff) as u8,
        ((x >> 24) & 0xff) as u8,
        ((x >> 32) & 0xff) as u8,
        ((x >> 40) & 0xff) as u8,
        ((x >> 48) & 0xff) as u8,
        ((x >> 56) & 0xff) as u8,
    ]
}

pub open spec fn enc_u32(x: u32) -> Seq<u8> {
    seq![
        (x & 0xff) as u8,
        ((x >> 8) & 0xff) as u8,
        ((x >> 16) & 0xff) as u8,
        ((x >> 24) & 0xff) as u8,
    ]
}

pub open spec fn enc_char(c: char) -> Seq<u8> {
    enc_u32(c as u32)
}

pub open spec fn enc_chars(s: Seq<char>) -> Seq<u8>
    decreases s.len(),
{
    if s.len() == 0 {
        Seq::empty()
    } else {
        enc_chars(s.drop_last()) + enc_char(s.last())
    }
}

pub open spec fn enc_str(s: Seq<char>) -> Seq<u8> {
    enc_u64(s.len() as u64) + enc_chars(s)
}

pub open spec fn enc_opt_str(o: Option<Seq<char>>) -> Seq<u8> {
    match o {
        None => seq![0u8],
        Some(s) => seq![1u8] + enc_str(s),
    }
}

pub open spec fn enc_opt_u32(o: Option<u32>) -> Seq<u8> {
    match o {
        None => seq![0u8],
        Some(x) => seq![1u8] + enc_u32(x),
    }
}

pub open spec fn enc_str_items(s: Seq<Seq<char>>) -> Seq<u8>
    decreases s.len(),
{
    if s.len() == 0 {
        Seq::empty()
    } else {
        enc_str_items(s.drop_last()) + enc_str(s.last())
    }
}

pub open spec fn enc_str_list(s: Seq<Seq<char>>) -> Seq<u8> {
    enc_u64(s.len() as u64) + enc_str_items(s)
}

pub open spec fn enc_opt_str_list(o: Option<Seq<Seq<char>>>) -> Seq<u8> {
    match o {
        None => seq![0u8],
        Some(v) => seq![1u8] + enc_str_list(v),
    }
}

pub open spec fn enc_whois_head(w: WhoisInfoView) -> Seq<u8> {
    enc_opt_str(w.country) + enc_opt_str(w.netname) + enc_opt_str(w.descr) + enc_opt_str(w.org)
}

pub open spec fn enc_whois(w: WhoisInfoView) -> Seq<u8> {
    enc_whois_head(w) + enc_opt_str(w.admin_c) + enc_opt_str(w.tech_c) + enc_opt_str(w.mnt_by)
        + enc_opt_str(w.last_modified) + enc_str(w.raw_response)
}

pub open spec fn enc_opt_whois(o: Option<WhoisInfoView>) -> Seq<u8> {
    match o {
        None => seq![0u8],
        Some(w) => seq![1u8] + enc_whois(w),
    }
}

pub open spec fn enc_upstream(u: BgpToolsUpstreamView) -> Seq<u8> {
    enc_str(u.asn) + enc_opt_str(u.name)
}

pub open spec fn enc_upstream_items(s: Seq<BgpToolsUpstreamView>) -> Seq<u8>
    decreases s.len(),
{
    if s.len() == 0 {
        Seq::empty()
    } else {
        enc_upstream_items(s.drop_last()) + enc_upstream(s.last())
    }
}

pub open spec fn enc_upstream_list(s: Seq<BgpToolsUpstreamView>) -> Seq<u8> {
    enc_u64(s.len() as u64) + enc_upstream_items(s)
}

pub open spec fn enc_bgptools_head(b: BgpToolsInfoView) -> Seq<u8> {
    enc_opt_str(b.asn) + enc_str(b.ip) + enc_opt_str(b.prefix) + enc_opt_str(b.country)
}

pub open spec fn enc_bgptools(b: BgpToolsInfoView) -> Seq<u8> {
    enc_bgptools_head(b) + enc_opt_str(b.registry) + enc_opt_str(b.allocated) + enc_opt_str(
        b.as_name,
    ) + enc_upstream_list(b.upstreams) + enc_opt_str(b.raw_response)
}

pub open spec fn enc_opt_bgptools(o: Option<BgpToolsInfoView>) -> Seq<u8> {
    match o {
        None => seq![0u8],
        Some(b) => seq![1u8] + enc_bgptools(b),
    }
}

pub open spec fn enc_meta(m: BgpApiMetaView) -> Seq<u8> {
    enc_opt_str(m.source_type) + enc_opt_str(m.source_id) + enc_opt_str_list(m.origin_asns)
        + enc_opt_str(m.meta_type)
}

pub open spec fn enc_meta_items(s: Seq<BgpApiMetaView>) -> Seq<u8>
    decreases s.len(),
{
    if s.len() == 0 {
        Seq::empty()
    } else {
        enc_meta_items(s.drop_last()) + enc_meta(s.last())
    }
}

pub open spec fn enc_meta_list(s: Seq<BgpApiMetaView>) -> Seq<u8> {
    enc_u64(s.len() as u64) + enc_meta_items(s)
}

pub open spec fn enc_bgp_api(r: BgpApiResultView) -> Seq<u8> {
    enc_str(r.prefix) + enc_meta_list(r.meta)
}

pub open spec fn enc_opt_bgp_api(o: Option<BgpApiResultView>) -> Seq<u8> {
    match o {
        None => seq![0u8],
        Some(b) => seq![1u8] + enc_bgp_api(b),
    }
}

pub open spec fn enc_vrps(v: RpkiVrpsView) -> Seq<u8> {
    enc_str(v.asn) + enc_str(v.prefix) + enc_opt_str(v.max_length)
}

pub open spec fn enc_vrps_items(s: Seq<RpkiVrpsView>) -> Seq<u8>
    decreases s.len(),
{
    if s.len() == 0 {
        Seq::empty()
    } else {
        enc_vrps_items(s.drop_last()) + enc_vrps(s.last())
    }
}

pub open spec fn enc_vrps_list(s: Seq<RpkiVrpsView>) -> Seq<u8> {
    enc_u64(s.len() as u64) + enc_vrps_items(s)
}

pub open spec fn enc_opt_vrps_list(o: Option<Seq<RpkiVrpsView>>) -> Seq<u8> {
    match o {
        None => seq![0u8],
        Some(v) => seq![1u8] + enc_vrps_list(v),
    }
}

pub open spec fn enc_rpki(r: RpkiValidityView) -> Seq<u8> {
    enc_str(r.asn) + enc_str(r.prefix) + enc_str(r.validity) + enc_opt_str(r.reason)
        + enc_opt_vrps_list(r.vrps)
}

pub open spec fn enc_rpki_items(s: Seq<RpkiValidityView>) -> Seq<u8>
    decreases s.len(),
{
    if s.len() == 0 {
        Seq::empty()
    } else {
        enc_rpki_items(s.drop_last()) + enc_rpki(s.last())
    }
}

pub open spec fn enc_rpki_list(s: Seq<RpkiValidityView>) -> Seq<u8> {
    enc_u64(s.len() as u64) + enc_rpki_items(s)
}

pub open spec fn enc_ip_head(v: IpInfoView) -> Seq<u8> {
    enc_str(v.ip) + enc_opt_str(v.ip_range) + enc_opt_str(v.country) + enc_opt_str(v.city)
        + enc_opt_u32(v.asn) + enc_opt_str(v.organization)
}

#[verifier::opaque]
pub open spec fn enc_ip_info(v: IpInfoView) -> Seq<u8> {
    enc_ip_head(v) + enc_opt_whois(v.whois_info) + enc_opt_bgptools(v.bgp_info) + enc_opt_bgp_api(
        v.bgp_api_info,
    ) + enc_rpki_list(v.rpki_info_list)
}

// ---------------------------------------------------------------------------
// Encoders
// ---------------------------------------------------------------------------

pub fn put_u64(out: &mut Vec<u8>, x: u64)
    ensures
        final(out)@ == old(out)@ + enc_u64(x),
{
    out.push((x & 0xff) as u8);
    out.push(((x >> 8) & 0xff) as u8);
    out.push(((x >> 16) & 0xff) as u8);
    out.push(((x >> 24) & 0xff) as u8);
    out.push(((x >> 32) & 0xff) as u8);
    out.push(((x >> 40) & 0xff) as u8);
    out.push(((x >> 48) & 0xff) as u8);
    out.push(((x >> 56) & 0xff) as u8);
    assert(out@ =~= old(out)@ + enc_u64(x));
}

pub fn put_u32(out: &mut Vec<u8>, x: u32)
    ensures
        final(out)@ == old(out)@ + enc_u32(x),
{
    out.push((x & 0xff) as u8);
    out.push(((x >> 8) & 0xff) as u8);
    out.push(((x >> 16) & 0xff) as u8);
    out.push(((x >> 24) & 0xff) as u8);
    assert(out@ =~= old(out)@ + enc_u32(x));
}

pub fn put_char(out: &mut Vec<u8>, c: char)
    ensures
        final(out)@ == old(out)@ + enc_char(c),
{
    put_u32(out, c as u32);
}

pub fn put_str(out: &mut Vec<u8>, s: &String)
    ensures
        final(out)@ == old(out)@ + enc_str(s@),
{
    let n = s.as_str().unicode_len();
    put_u64(out, n as u64);
    let mut i: usize = 0;
    while i < n
        invariant
            n == s@.len(),
            i <= n,
            out@ == old(out)@ + enc_u64(n as u64) + enc_chars(s@.take(i as int)),
        decreases n - i,
    {
        let c = s.as_str().get_char(i);
        put_char(out, c);
        proof {
            let t = s@.take(i + 1);
            assert(t.drop_last() =~= s@.take(i as int));
            assert(t.last() == c);
            assert(out@ =~= old(out)@ + enc_u64(n as u64) + enc_chars(s@.take(i + 1)));
        }
        i = i + 1;
    }
    assert(s@.take(n as int) =~= s@);
}

pub fn put_opt_str(out: &mut Vec<u8>, o: &Option<String>)
    ensures
        final(out)@ == old(out)@ + enc_opt_str(o.deep_view()),
{
    match o {
        None => {
            out.push(0u8);
            assert(out@ =~= old(out)@ + enc_opt_str(None));
        },
        Some(s) => {
            out.push(1u8);
            put_str(out, s);
            assert(out@ =~= old(out)@ + enc_opt_str(Some(s@)));
        },
    }
}

pub fn put_opt_u32(out: &mut Vec<u8>, o: &Option<u32>)
    ensures
        final(out)@ == old(out)@ + enc_opt_u32(*o),
{
    match o {
        None => {
            out.push(0u8);
            assert(out@ =~= old(out)@ + enc_opt_u32(None));
        },
        Some(x) => {
            out.push(1u8);
            put_u32(out, *x);
            assert(out@ =~= old(out)@ + enc_opt_u32(Some(*x)));
        },
    }
}

pub fn put_str_list(out: &mut Vec<u8>, v: &Vec<String>)
    ensures
        final(out)@ == old(out)@ + enc_str_list(v.deep_view()),
{
    let n = v.len();
    proof {
        assert(v.deep_view().len() == v@.len());
    }
    put_u64(out, n as u64);
    let mut i: usize = 0;
    while i < n
        invariant
            n == v@.len(),
            v.deep_view().len() == n,
            i <= n,
            out@ == old(out)@ + enc_u64(n as u64) + enc_str_items(v.deep_view().take(i as int)),
        decreases n - i,
    {
        put_str(out, &v[i]);
        proof {
            let t = v.deep_view().take(i + 1);
            assert(t.drop_last() =~= v.deep_view().take(i as int));
            assert(t.last() == v@[i as int]@);
            assert(out@ =~= old(out)@ + enc_u64(n as u64) + enc_str_items(
                v.deep_view().take(i + 1),
            ));
        }
        i = i + 1;
    }
    assert(v.deep_view().take(n as int) =~= v.deep_view());
}

#[verifier::rlimit(100)]
fn put_whois_head(out: &mut Vec<u8>, w: &WhoisInfo)
    ensures
        final(out)@ == old(out)@ + enc_whois_head(w.deep_view()),
{
    put_opt_str(out, &w.country);
    put_opt_str(out, &w.netname);
    put_opt_str(out, &w.descr);
    put_opt_str(out, &w.org);
    assert(out@ =~= old(out)@ + enc_whois_head(w.deep_view()));
}

#[verifier::rlimit(100)]
pub fn put_whois(out: &mut Vec<u8>, w: &WhoisInfo)
    ensures
        final(out)@ == old(out)@ + enc_whois(w.deep_view()),
{
    put_whois_head(out, w);
    put_opt_str(out, &w.admin_c);
    put_opt_str(out, &w.tech_c);
    put_opt_str(out, &w.mnt_by);
    put_opt_str(out, &w.last_modified);
    put_str(out, &w.raw_response);
    assert(out@ =~= old(out)@ + enc_whois(w.deep_view()));
}

pub fn put_opt_whois(out: &mut Vec<u8>, o: &Option<WhoisInfo>)
    ensures
        final(out)@ == old(out)@ + enc_opt_whois(o.deep_view()),
{
    match o {
        None => {
            out.push(0u8);
            assert(out@ =~= old(out)@ + enc_opt_whois(None));
        },
        Some(w) => {
            out.push(1u8);
            put_whois(out, w);
            assert(out@ =~= old(out)@ + enc_opt_whois(Some(w.deep_view())));
        },
    }
}

pub fn put_upstream(out: &mut Vec<u8>, u: &BgpToolsUpstream)
    ensures
        final(out)@ == old(out)@ + enc_upstream(u.deep_view()),
{
    put_str(out, &u.asn);
    put_opt_str(out, &u.name);
    assert(out@ =~= old(out)@ + enc_upstream(u.deep_view()));
}

pub fn put_upstream_list(out: &mut Vec<u8>, v: &Vec<BgpToolsUpstream>)
    ensures
        final(out)@ == old(out)@ + enc_upstream_list(v.deep_view()),
{
    let n = v.len();
    proof {
        assert(v.deep_view().len() == v@.len());
    }
    put_u64(out, n as u64);
    let mut i: usize = 0;
    while i < n
        invariant
            n == v@.len(),
            v.deep_view().len() == n,
            i <= n,
            out@ == old(out)@ + enc_u64(n as u64) + enc_upstream_items(
                v.deep_view().take(i as int),
            ),
        decreases n - i,
    {
        put_upstream(out, &v[i]);
        proof {
            let t = v.deep_view().take(i + 1);
            assert(t.drop_last() =~= v.deep_view().take(i as int));
            assert(t.last() == v@[i as int].deep_view());
            assert(out@ =~= old(out)@ + enc_u64(n as u64) + enc_upstream_items(
                v.deep_view().take(i + 1),
            ));
        }
        i = i + 1;
    }
    assert(v.deep_view().take(n as int) =~= v.deep_view());
}

#[verifier::rlimit(100)]
fn put_bgptools_head(out: &mut Vec<u8>, b: &BgpToolsInfo)
    ensures
        final(out)@ == old(out)@ + enc_bgptools_head(b.deep_view()),
{
    put_opt_str(out, &b.asn);
    put_str(out, &b.ip);
    put_opt_str(out, &b.prefix);
    put_opt_str(out, &b.country);
    assert(out@ =~= old(out)@ + enc_bgptools_head(b.deep_view()));
}

#[verifier::rlimit(100)]
pub fn put_bgptools(out: &mut Vec<u8>, b: &BgpToolsInfo)
    ensures
        final(out)@ == old(out)@ + enc_bgptools(b.deep_view()),
{
    put_bgptools_head(out, b);
    put_opt_str(out, &b.registry);
    put_opt_str(out, &b.allocated);
    put_opt_str(out, &b.as_name);
    put_upstream_list(out, &b.upstreams);
    put_opt_str(out, &b.raw_response);
    assert(out@ =~= old(out)@ + enc_bgptools(b.deep_view()));
}

pub fn put_opt_bgptools(out: &mut Vec<u8>, o: &Option<BgpToolsInfo>)
    ensures
        final(out)@ == old(out)@ + enc_opt_bgptools(o.deep_view()),
{
    match o {
        None => {
            out.push(0u8);
            assert(out@ =~= old(out)@ + enc_opt_bgptools(None));
        },
        Some(b) => {
            out.push(1u8);
            put_bgptools(out, b);
            assert(out@ =~= old(out)@ + enc_opt_bgptools(Some(b.deep_view())));
        },
    }
}

pub fn put_meta(out: &mut Vec<u8>, m: &BgpApiMeta)
    ensures
        final(out)@ == old(out)@ + enc_meta(m.deep_view()),
{
    put_opt_str(out, &m.source_type);
    put_opt_str(out, &m.source_id);
    match &m.origin_asns {
        None => {
            out.push(0u8);
        },
        Some(v) => {
            out.push(1u8);
            put_str_list(out, v);
        },
    }
    put_opt_str(out, &m.meta_type);
    assert(out@ =~= old(out)@ + enc_meta(m.deep_view()));
}

pub fn put_meta_list(out: &mut Vec<u8>, v: &Vec<BgpApiMeta>)
    ensures
        final(out)@ == old(out)@ + enc_meta_list(v.deep_view()),
{
    let n = v.len();
    proof {
        assert(v.deep_view().len() == v@.len());
    }
    put_u64(out, n as u64);
    let mut i: usize = 0;
    while i < n
        invariant
            n == v@.len(),
            v.deep_view().len() == n,
            i <= n,
            out@ == old(out)@ + enc_u64(n as u64) + enc_meta_items(v.deep_view().take(i as int)),
        decreases n - i,
    {
        put_meta(out, &v[i]);
        proof {
            let t = v.deep_view().take(i + 1);
            assert(t.drop_last() =~= v.deep_view().take(i as int));
            assert(t.last() == v@[i as int].deep_view());
            assert(out@ =~= old(out)@ + enc_u64(n as u64) + enc_meta_items(
                v.deep_view().take(i + 1),
            ));
        }
        i = i + 1;
    }
    assert(v.deep_view().take(n as int) =~= v.deep_view());
}

pub fn put_bgp_api(out: &mut Vec<u8>, r: &BgpApiResult)
    ensures
        final(out)@ == old(out)@ + enc_bgp_api(r.deep_view()),
{
    put_str(out, &r.prefix);
    put_meta_list(out, &r.meta);
    assert(out@ =~= old(out)@ + enc_bgp_api(r.deep_view()));
}

pub fn put_opt_bgp_api(out: &mut Vec<u8>, o: &Option<BgpApiResult>)
    ensures
        final(out)@ == old(out)@ + enc_opt_bgp_api(o.deep_view()),
{
    match o {
        None => {
            out.push(0u8);
            assert(out@ =~= old(out)@ + enc_opt_bgp_api(None));
        },
        Some(b) => {
            out.push(1u8);
            put_bgp_api(out, b);
            assert(out@ =~= old(out)@ + enc_opt_bgp_api(Some(b.deep_view())));
        },
    }
}

pub fn put_vrps(out: &mut Vec<u8>, v: &RpkiVrps)
    ensures
        final(out)@ == old(out)@ + enc_vrps(v.deep_view()),
{
    put_str(out, &v.asn);
    put_str(out, &v.prefix);
    put_opt_str(out, &v.max_length);
    assert(out@ =~= old(out)@ + enc_vrps(v.deep_view()));
}

pub fn put_vrps_list(out: &mut Vec<u8>, v: &Vec<RpkiVrps>)
    ensures
        final(out)@ == old(out)@ + enc_vrps_list(v.deep_view()),
{
    let n = v.len();
    proof {
        assert(v.deep_view().len() == v@.len());
    }
    put_u64(out, n as u64);
    let mut i: usize = 0;
    while i < n
        invariant
            n == v@.len(),
            v.deep_view().len() == n,
            i <= n,
            out@ == old(out)@ + enc_u64(n as u64) + enc_vrps_items(v.deep_view().take(i as int)),
        decreases n - i,
    {
        put_vrps(out, &v[i]);
        proof {
            let t = v.deep_view().take(i + 1);
            assert(t.drop_last() =~= v.deep_view().take(i as int));
            assert(t.last() == v@[i as int].deep_view());
            assert(out@ =~= old(out)@ + enc_u64(n as u64) + enc_vrps_items(
                v.deep_view().take(i + 1),
            ));
        }
        i = i + 1;
    }
    assert(v.deep_view().take(n as int) =~= v.deep_view());
}

pub fn put_rpki(out: &mut Vec<u8>, r: &RpkiValidity)
    ensures
        final(out)@ == old(out)@ + enc_rpki(r.deep_view()),
{
    put_str(out, &r.asn);
    put_str(out, &r.prefix);
    put_str(out, &r.validity);
    put_opt_str(out, &r.reason);
    match &r.vrps {
        None => {
            out.push(0u8);
        },
        Some(v) => {
            out.push(1u8);
            put_vrps_list(out, v);
        },
    }
    assert(out@ =~= old(out)@ + enc_rpki(r.deep_view()));
}

pub fn put_rpki_list(out: &mut Vec<u8>, v: &Vec<RpkiValidity>)
    ensures
        final(out)@ == old(out)@ + enc_rpki_list(v.deep_view()),
{
    let n = v.len();
    proof {
        assert(v.deep_view().len() == v@.len());
    }
    put_u64(out, n as u64);
    let mut i: usize = 0;
    while i < n
        invariant
            n == v@.len(),
            v.deep_view().len() == n,
            i <= n,
            out@ == old(out)@ + enc_u64(n as u64) + enc_rpki_items(v.deep_view().take(i as int)),
        decreases n - i,
    {
        put_rpki(out, &v[i]);
        proof {
            let t = v.deep_view().take(i + 1);
            assert(t.drop_last() =~= v.deep_view().take(i as int));
            assert(t.last() == v@[i as int].deep_view());
            assert(out@ =~= old(out)@ + enc_u64(n as u64) + enc_rpki_items(
                v.deep_view().take(i + 1),
            ));
        }
        i = i + 1;
    }
    assert(v.deep_view().take(n as int) =~= v.deep_view());
}

#[verifier::rlimit(100)]
fn put_ip_head(out: &mut Vec<u8>, v: &IpInfo)
    ensures
        final(out)@ == old(out)@ + enc_ip_head(v.deep_view()),
{
    put_str(out, &v.ip);
    put_opt_str(out, &v.ip_range);
    put_opt_str(out, &v.country);
    put_opt_str(out, &v.city);
    put_opt_u32(out, &v.asn);
    put_opt_str(out, &v.organization);
    assert(out@ =~= old(out)@ + enc_ip_head(v.deep_view()));
}

#[verifier::rlimit(100)]
pub fn put_ip_info(out: &mut Vec<u8>, v: &IpInfo)
    ensures
        final(out)@ == old(out)@ + enc_ip_info(v.deep_view()),
{
    proof {
        reveal(enc_ip_info);
    }
    put_ip_head(out, v);
    put_opt_whois(out, &v.whois_info);
    put_opt_bgptools(out, &v.bgp_info);
    put_opt_bgp_api(out, &v.bgp_api_info);
    put_rpki_list(out, &v.rpki_info_list);
    assert(out@ =~= old(out)@ + enc_ip_info(v.deep_view()));
}


// ---------------------------------------------------------------------------
// The snapshot of a whole store
// ---------------------------------------------------------------------------

pub open spec fn enc_entry_pair(p: (Seq<char>, EntryView)) -> Seq<u8> {
    enc_str(p.0) + enc_ip_info(p.1.value) + enc_u64(p.1.expires_at) + enc_u64(
        p.1.size_bytes as u64,
    )
}

pub open spec fn enc_entry_items(s: Seq<(Seq<char>, EntryView)>) -> Seq<u8>
    decreases s.len(),
{
    if s.len() == 0 {
        Seq::empty()
    } else {
        enc_entry_items(s.drop_last()) + enc_entry_pair(s.last())
    }
}

pub open spec fn enc_entry_list(s: Seq<(Seq<char>, EntryView)>) -> Seq<u8> {
    enc_u64(s.len() as u64) + enc_entry_items(s)
}

/// The on-disk form: the creation second, the entry count, the entries.
pub open spec fn enc_snapshot(s: Seq<(Seq<char>, EntryView)>, created_at: u64) -> Seq<u8> {
    enc_u64(created_at) + enc_entry_list(s)
}

} // verus!
