//! The routing-table enrichment: the record a routing WHOIS answer
//! contributes, and the verified parser for the pipe-separated answer line.
//! Socket I/O and the HTML upstream scrape live outside the library.

use vstd::prelude::*;
use crate::cloning::DeepClone;
use crate::ip::chars_of;
use crate::text::{
    chars_range_to_string, split_lines, split_lines_exec, split_on, split_on_exec, trim_range,
    trim_spec,
};

verus! {

/// One upstream autonomous system of a prefix.
pub struct BgpToolsUpstream {
    pub asn: String,
    pub name: Option<String>,
}

pub ghost struct BgpToolsUpstreamView {
    pub asn: Seq<char>,
    pub name: Option<Seq<char>>,
}

impl DeepView for BgpToolsUpstream {
    type V = BgpToolsUpstreamView;

    open spec fn deep_view(&self) -> BgpToolsUpstreamView {
        BgpToolsUpstreamView { asn: self.asn.deep_view(), name: self.name.deep_view() }
    }
}

impl DeepClone for BgpToolsUpstream {
    fn deep_clone(&self) -> (res: Self)
        ensures
            res.deep_view() == self.deep_view(),
    {
        BgpToolsUpstream { asn: self.asn.deep_clone(), name: self.name.deep_clone() }
    }
}

impl Clone for BgpToolsUpstream {
    fn clone(&self) -> (res: Self)
        ensures
            res.deep_view() == self.deep_view(),
    {
        self.deep_clone()
    }
}

/// What the routing-table lookup contributes to a record.
pub struct BgpToolsInfo {
    pub asn: Option<String>,
    pub ip: String,
    pub prefix: Option<String>,
    pub country: Option<String>,
    pub registry: Option<String>,
    pub allocated: Option<String>,
    pub as_name: Option<String>,
    pub upstreams: Vec<BgpToolsUpstream>,
    pub raw_response: Option<String>,
}

pub ghost struct BgpToolsInfoView {
    pub asn: Option<Seq<char>>,
    pub ip: Seq<char>,
    pub prefix: Option<Seq<char>>,
    pub country: Option<Seq<char>>,
    pub registry: Option<Seq<char>>,
    pub allocated: Option<Seq<char>>,
    pub as_name: Option<Seq<char>>,
    pub upstreams: Seq<BgpToolsUpstreamView>,
    pub raw_response: Option<Seq<char>>,
}

impl DeepView for BgpToolsInfo {
    type V = BgpToolsInfoView;

    open spec fn deep_view(&self) -> BgpToolsInfoView {
        BgpToolsInfoView {
            asn: self.asn.deep_view(),
            ip: self.ip.deep_view(),
            prefix: self.prefix.deep_view(),
            country: self.country.deep_view(),
            registry: self.registry.deep_view(),
            allocated: self.allocated.deep_view(),
            as_name: self.as_name.deep_view(),
            upstreams: self.upstreams.deep_view(),
            raw_response: self.raw_response.deep_view(),
        }
    }
}

impl DeepClone for BgpToolsInfo {
    fn deep_clone(&self) -> (res: Self)
        ensures
            res.deep_view() == self.deep_view(),
    {
        BgpToolsInfo {
            asn: self.asn.deep_clone(),
            ip: self.ip.deep_clone(),
            prefix: self.prefix.deep_clone(),
            country: self.country.deep_clone(),
            registry: self.registry.deep_clone(),
            allocated: self.allocated.deep_clone(),
            as_name: self.as_name.deep_clone(),
            upstreams: self.upstreams.deep_clone(),
            raw_response: self.raw_response.deep_clone(),
        }
    }
}

impl Clone for BgpToolsInfo {
    fn clone(&self) -> (res: Self)
        ensures
            res.deep_view() == self.deep_view(),
    {
        self.deep_clone()
    }
}

/// The routing-table text-protocol client.  The socket I/O lives outside
/// the library; the answer is parsed by
/// [`BgpToolsClient::parse_whois_response`].
pub struct BgpToolsClient;

// ---------------------------------------------------------------------------
// Parsing a routing-table answer
// ---------------------------------------------------------------------------

/// Whether a line is a header or comment the parser passes over.
pub open spec fn bgp_line_skipped(t: Seq<char>) -> bool {
    t.len() == 0 || t[0] == '#' || (t.len() >= 3 && t[0] == 'A' && t[1] == 'S' && t[2] == ' ')
}

/// The trimmed pipe-separated fields of a line.
pub open spec fn bgp_fields(t: Seq<char>) -> Seq<Seq<char>> {
    split_on(t, '|').map_values(|p: Seq<char>| trim_spec(p))
}

/// The fields of the first data line that carries at least seven of them.
pub open spec fn first_bgp_fields(lines: Seq<Seq<char>>) -> Option<Seq<Seq<char>>>
    decreases lines.len(),
{
    if lines.len() == 0 {
        None
    } else {
        let t = trim_spec(lines[0]);
        if !bgp_line_skipped(t) && bgp_fields(t).len() >= 7 {
            Some(bgp_fields(t))
        } else {
            first_bgp_fields(lines.skip(1))
        }
    }
}

pub open spec fn spec_parse_bgptools(s: Seq<char>) -> Option<Seq<Seq<char>>> {
    first_bgp_fields(split_lines(s))
}

impl BgpToolsClient {
    /// Reads the first data line of a routing-table answer: seven or more
    /// pipe-separated fields giving ASN, address, prefix, country,
    /// registry, allocation date and AS name.  The raw text is kept; a
    /// headers-only answer leaves every field empty.
    #[verifier::rlimit(100)]
    pub fn parse_whois_response(response: &str, ip: &str) -> (r: BgpToolsInfo)
        ensures
            r.ip@ == ip@,
            r.upstreams@.len() == 0,
            r.raw_response is Some && r.raw_response->0@ == response@,
            match spec_parse_bgptools(response@) {
                Some(parts) => {
                    &&& r.asn.deep_view() == Some(parts[0])
                    &&& r.prefix.deep_view() == Some(parts[2])
                    &&& r.country.deep_view() == Some(parts[3])
                    &&& r.registry.deep_view() == Some(parts[4])
                    &&& r.allocated.deep_view() == Some(parts[5])
                    &&& r.as_name.deep_view() == Some(parts[6])
                },
                None => {
                    &&& r.asn is None
                    &&& r.prefix is None
                    &&& r.country is None
                    &&& r.registry is None
                    &&& r.allocated is None
                    &&& r.as_name is None
                },
            },
    {
        let v = chars_of(response);
        let lines = split_lines_exec(&v);
        let ghost ls = split_lines(v@);
        let n = lines.len();
        proof {
            assert(ls.len() == n);
            assert(ls.skip(0) =~= ls);
        }
        let mut i: usize = 0;
        while i < n
            invariant
                v@ == response@,
                n == lines@.len(),
                ls == split_lines(v@),
                ls.len() == n,
                i <= n,
                forall|j: int|
                    0 <= j < n ==> lines@[j].0 <= lines@[j].1 <= v@.len() && #[trigger] v@.subrange(
                        lines@[j].0 as int,
                        lines@[j].1 as int,
                    ) == ls[j],
                first_bgp_fields(ls) == first_bgp_fields(ls.skip(i as int)),
            decreases n - i,
        {
            proof {
                assert(ls.skip(i as int)[0] == ls[i as int]);
                assert(ls.skip(i as int).skip(1) =~= ls.skip(i + 1));
            }
            proof {
                assert(v@.subrange(lines@[i as int].0 as int, lines@[i as int].1 as int) == ls[
                    i as int
                ]);
            }
            let (lf, lt) = (lines[i].0, lines[i].1);
            let ghost line = ls[i as int];
            assert(v@.subrange(lf as int, lt as int) == line);
            let (tf, tt) = trim_range(&v, lf, lt);
            let ghost t = trim_spec(line);
            assert(v@.subrange(tf as int, tt as int) == t);
            let skipped: bool = if tf == tt {
                true
            } else {
                assert(t[0] == v@[tf as int]);
                if v[tf] == '#' {
                    true
                } else if tt - tf >= 3 {
                    proof {
                        assert(t[1] == v@[tf + 1]);
                        assert(t[2] == v@[tf + 2]);
                    }
                    v[tf] == 'A' && v[tf + 1] == 'S' && v[tf + 2] == ' '
                } else {
                    false
                }
            };
            assert(skipped == bgp_line_skipped(t));
            if !skipped {
                let parts = split_on_exec(&v, tf, tt, '|');
                let ghost fields = bgp_fields(t);
                proof {
                    assert(fields.len() == split_on(t, '|').len());
                }
                if parts.len() >= 7 {
                    let (a0, b0) = (parts[0].0, parts[0].1);
                    let (f0, t0) = trim_range(&v, a0, b0);
                    let (a2, b2) = (parts[2].0, parts[2].1);
                    let (f2, t2) = trim_range(&v, a2, b2);
                    let (a3, b3) = (parts[3].0, parts[3].1);
                    let (f3, t3) = trim_range(&v, a3, b3);
                    let (a4, b4) = (parts[4].0, parts[4].1);
                    let (f4, t4) = trim_range(&v, a4, b4);
                    let (a5, b5) = (parts[5].0, parts[5].1);
                    let (f5, t5) = trim_range(&v, a5, b5);
                    let (a6, b6) = (parts[6].0, parts[6].1);
                    let (f6, t6) = trim_range(&v, a6, b6);
                    proof {
                        assert(v@.subrange(a0 as int, b0 as int) == split_on(t, '|')[0]);
                        assert(v@.subrange(a2 as int, b2 as int) == split_on(t, '|')[2]);
                        assert(v@.subrange(a3 as int, b3 as int) == split_on(t, '|')[3]);
                        assert(v@.subrange(a4 as int, b4 as int) == split_on(t, '|')[4]);
                        assert(v@.subrange(a5 as int, b5 as int) == split_on(t, '|')[5]);
                        assert(v@.subrange(a6 as int, b6 as int) == split_on(t, '|')[6]);
                        assert(fields[0] == trim_spec(split_on(t, '|')[0]));
                        assert(fields[2] == trim_spec(split_on(t, '|')[2]));
                        assert(fields[3] == trim_spec(split_on(t, '|')[3]));
                        assert(fields[4] == trim_spec(split_on(t, '|')[4]));
                        assert(fields[5] == trim_spec(split_on(t, '|')[5]));
                        assert(fields[6] == trim_spec(split_on(t, '|')[6]));
                        assert(first_bgp_fields(ls.skip(i as int)) == Some(fields));
                    }
                    return BgpToolsInfo {
                        asn: Some(chars_range_to_string(&v, f0, t0)),
                        ip: String::from_str(ip),
                        prefix: Some(chars_range_to_string(&v, f2, t2)),
                        country: Some(chars_range_to_string(&v, f3, t3)),
                        registry: Some(chars_range_to_string(&v, f4, t4)),
                        allocated: Some(chars_range_to_string(&v, f5, t5)),
                        as_name: Some(chars_range_to_string(&v, f6, t6)),
                        upstreams: Vec::new(),
                        raw_response: Some(String::from_str(response)),
                    };
                }
            }
            i = i + 1;
        }
        proof {
            assert(ls.skip(n as int) =~= Seq::<Seq<char>>::empty());
        }
        BgpToolsInfo {
            asn: None,
            ip: String::from_str(ip),
            prefix: None,
            country: None,
            registry: None,
            allocated: None,
            as_name: None,
            upstreams: Vec::new(),
            raw_response: Some(String::from_str(response)),
        }
    }

    /// Hangs the scraped upstream list onto the routing-table record when
    /// the scrape succeeded; a failed scrape leaves the record as it was.
    pub fn with_upstreams(info: &mut BgpToolsInfo, upstreams: Option<Vec<BgpToolsUpstream>>)
        ensures
            final(info).upstreams.deep_view() == (match upstreams {
                Some(u) => u.deep_view(),
                None => old(info).upstreams.deep_view(),
            }),
            final(info).asn == old(info).asn,
            final(info).ip == old(info).ip,
            final(info).prefix == old(info).prefix,
            final(info).country == old(info).country,
            final(info).registry == old(info).registry,
            final(info).allocated == old(info).allocated,
            final(info).as_name == old(info).as_name,
            final(info).raw_response == old(info).raw_response,
    {
        match upstreams {
            Some(u) => {
                info.upstreams = u;
            },
            None => {
            },
        }
    }
}

} // verus!
