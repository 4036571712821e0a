//! The routing-prefix REST enrichment: the data it contributes and the
//! request/response decisions around the call.  The HTTP exchange itself
//! lives outside the library.

use vstd::prelude::*;
use vstd::string::StringExecFns;
use crate::cloning::DeepClone;
use crate::ip::find_char;

verus! {

/// One metadata entry of a prefix, possibly naming its origin ASNs.
pub struct BgpApiMeta {
    pub source_type: Option<String>,
    pub source_id: Option<String>,
    pub origin_asns: Option<Vec<String>>,
    pub meta_type: Option<String>,
}

pub ghost struct BgpApiMetaView {
    pub source_type: Option<Seq<char>>,
    pub source_id: Option<Seq<char>>,
    pub origin_asns: Option<Seq<Seq<char>>>,
    pub meta_type: Option<Seq<char>>,
}

impl DeepView for BgpApiMeta {
    type V = BgpApiMetaView;

    open spec fn deep_view(&self) -> BgpApiMetaView {
        BgpApiMetaView {
            source_type: self.source_type.deep_view(),
            source_id: self.source_id.deep_view(),
            origin_asns: self.origin_asns.deep_view(),
            meta_type: self.meta_type.deep_view(),
        }
    }
}

impl DeepClone for BgpApiMeta {
    fn deep_clone(&self) -> (res: Self)
        ensures
            res.deep_view() == self.deep_view(),
    {
        BgpApiMeta {
            source_type: self.source_type.deep_clone(),
            source_id: self.source_id.deep_clone(),
            origin_asns: self.origin_asns.deep_clone(),
            meta_type: self.meta_type.deep_clone(),
        }
    }
}

impl Clone for BgpApiMeta {
    fn clone(&self) -> (res: Self)
        ensures
            res.deep_view() == self.deep_view(),
    {
        self.deep_clone()
    }
}

/// What the routing-prefix lookup contributes to a record.
pub struct BgpApiResult {
    pub prefix: String,
    pub meta: Vec<BgpApiMeta>,
}

pub ghost struct BgpApiResultView {
    pub prefix: Seq<char>,
    pub meta: Seq<BgpApiMetaView>,
}

impl DeepView for BgpApiResult {
    type V = BgpApiResultView;

    open spec fn deep_view(&self) -> BgpApiResultView {
        BgpApiResultView { prefix: self.prefix.deep_view(), meta: self.meta.deep_view() }
    }
}

impl DeepClone for BgpApiResult {
    fn deep_clone(&self) -> (res: Self)
        ensures
            res.deep_view() == self.deep_view(),
    {
        BgpApiResult { prefix: self.prefix.deep_clone(), meta: self.meta.deep_clone() }
    }
}

impl Clone for BgpApiResult {
    fn clone(&self) -> (res: Self)
        ensures
            res.deep_view() == self.deep_view(),
    {
        self.deep_clone()
    }
}

/// The decoded body of a routing-prefix answer.
pub struct BgpApiResponse {
    pub response_type: String,
    pub prefix: String,
    pub result: Option<BgpApiResult>,
}

pub ghost struct BgpApiResponseView {
    pub response_type: Seq<char>,
    pub prefix: Seq<char>,
    pub result: Option<BgpApiResultView>,
}

impl DeepView for BgpApiResponse {
    type V = BgpApiResponseView;

    open spec fn deep_view(&self) -> BgpApiResponseView {
        BgpApiResponseView {
            response_type: self.response_type.deep_view(),
            prefix: self.prefix.deep_view(),
            result: self.result.deep_view(),
        }
    }
}

/// The routing-prefix REST client.  The HTTP exchange lives outside the
/// library; the query prefix and the reading of the answer are here.
pub struct BgpApiClient;

impl BgpApiClient {
    /// The prefix the REST service is asked about: the address under its
    /// full-length mask, by family.
    pub fn query_prefix_for(ip: &str) -> (r: String)
        ensures
            r@ == ip@ + (if find_char(ip@, ':') >= 0 {
                "/128"@
            } else {
                "/32"@
            }),
    {
        let v = crate::ip::chars_of(ip);
        let mut u = String::from_str(ip);
        match crate::ip::find_char_pub(&v, ':') {
            Some(_) => {
                u.append("/128");
            },
            None => {
                u.append("/32");
            },
        }
        u
    }

    /// The usable part of an answer; an answer without a result is a
    /// failed enrichment.
    pub fn result_from_response(resp: BgpApiResponse) -> (r: Option<BgpApiResult>)
        ensures
            r == resp.result,
    {
        resp.result
    }
}

} // verus!
