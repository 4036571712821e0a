//! The RPKI validity enrichment: the per-origin-ASN validity record, the
//! shape of a validator's answer, and the decisions around the REST call.
//! The HTTP exchange lives outside the library.

use vstd::prelude::*;
use vstd::string::StringExecFns;
use crate::cloning::DeepClone;
use crate::ip::{chars_of, find_char};
use crate::text::chars_range_to_string;

verus! {

/// One validated ROA payload.
pub struct RpkiVrps {
    pub asn: String,
    pub prefix: String,
    pub max_length: Option<String>,
}

pub ghost struct RpkiVrpsView {
    pub asn: Seq<char>,
    pub prefix: Seq<char>,
    pub max_length: Option<Seq<char>>,
}

impl DeepView for RpkiVrps {
    type V = RpkiVrpsView;

    open spec fn deep_view(&self) -> RpkiVrpsView {
        RpkiVrpsView {
            asn: self.asn.deep_view(),
            prefix: self.prefix.deep_view(),
            max_length: self.max_length.deep_view(),
        }
    }
}

impl DeepClone for RpkiVrps {
    fn deep_clone(&self) -> (res: Self)
        ensures
            res.deep_view() == self.deep_view(),
    {
        RpkiVrps {
            asn: self.asn.deep_clone(),
            prefix: self.prefix.deep_clone(),
            max_length: self.max_length.deep_clone(),
        }
    }
}

impl Clone for RpkiVrps {
    fn clone(&self) -> (res: Self)
        ensures
            res.deep_view() == self.deep_view(),
    {
        self.deep_clone()
    }
}

/// The validity of one (prefix, origin ASN) pair, as cached in a record.
pub struct RpkiValidity {
    pub asn: String,
    pub prefix: String,
    pub validity: String,
    pub reason: Option<String>,
    pub vrps: Option<Vec<RpkiVrps>>,
}

pub ghost struct RpkiValidityView {
    pub asn: Seq<char>,
    pub prefix: Seq<char>,
    pub validity: Seq<char>,
    pub reason: Option<Seq<char>>,
    pub vrps: Option<Seq<RpkiVrpsView>>,
}

impl DeepView for RpkiValidity {
    type V = RpkiValidityView;

    open spec fn deep_view(&self) -> RpkiValidityView {
        RpkiValidityView {
            asn: self.asn.deep_view(),
            prefix: self.prefix.deep_view(),
            validity: self.validity.deep_view(),
            reason: self.reason.deep_view(),
            vrps: self.vrps.deep_view(),
        }
    }
}

impl DeepClone for RpkiValidity {
    fn deep_clone(&self) -> (res: Self)
        ensures
            res.deep_view() == self.deep_view(),
    {
        RpkiValidity {
            asn: self.asn.deep_clone(),
            prefix: self.prefix.deep_clone(),
            validity: self.validity.deep_clone(),
            reason: self.reason.deep_clone(),
            vrps: self.vrps.deep_clone(),
        }
    }
}

impl Clone for RpkiValidity {
    fn clone(&self) -> (res: Self)
        ensures
            res.deep_view() == self.deep_view(),
    {
        self.deep_clone()
    }
}

/// The route a validator judged.
pub struct RpkiRoute {
    pub origin_asn: String,
    pub prefix: String,
}

pub ghost struct RpkiRouteView {
    pub origin_asn: Seq<char>,
    pub prefix: Seq<char>,
}

impl DeepView for RpkiRoute {
    type V = RpkiRouteView;

    open spec fn deep_view(&self) -> RpkiRouteView {
        RpkiRouteView { origin_asn: self.origin_asn.deep_view(), prefix: self.prefix.deep_view() }
    }
}

/// The judgement inside a validator's answer.
pub struct RpkiValidityState {
    pub state: String,
    pub description: String,
}

pub ghost struct RpkiValidityStateView {
    pub state: Seq<char>,
    pub description: Seq<char>,
}

impl DeepView for RpkiValidityState {
    type V = RpkiValidityStateView;

    open spec fn deep_view(&self) -> RpkiValidityStateView {
        RpkiValidityStateView {
            state: self.state.deep_view(),
            description: self.description.deep_view(),
        }
    }
}

/// The validated route inside a validator's answer.
pub struct RpkiValidatedRoute {
    pub route: RpkiRoute,
    pub validity: RpkiValidityState,
    pub vrps: Option<Vec<RpkiVrps>>,
}

pub ghost struct RpkiValidatedRouteView {
    pub route: RpkiRouteView,
    pub validity: RpkiValidityStateView,
    pub vrps: Option<Seq<RpkiVrpsView>>,
}

impl DeepView for RpkiValidatedRoute {
    type V = RpkiValidatedRouteView;

    open spec fn deep_view(&self) -> RpkiValidatedRouteView {
        RpkiValidatedRouteView {
            route: self.route.deep_view(),
            validity: self.validity.deep_view(),
            vrps: self.vrps.deep_view(),
        }
    }
}

/// The decoded body of a validator's answer.
pub struct RpkiResponse {
    pub validated_route: Option<RpkiValidatedRoute>,
    pub generated_time: Option<String>,
}

pub ghost struct RpkiResponseView {
    pub validated_route: Option<RpkiValidatedRouteView>,
    pub generated_time: Option<Seq<char>>,
}

impl DeepView for RpkiResponse {
    type V = RpkiResponseView;

    open spec fn deep_view(&self) -> RpkiResponseView {
        RpkiResponseView {
            validated_route: self.validated_route.deep_view(),
            generated_time: self.generated_time.deep_view(),
        }
    }
}

/// The RPKI REST client: only the base URL it was built with.
pub struct RpkiClient {
    pub base_url: String,
}

/// The text without its trailing slashes.
pub open spec fn trim_trailing_slashes(s: Seq<char>) -> Seq<char>
    decreases s.len(),
{
    if s.len() > 0 && s.last() == '/' {
        trim_trailing_slashes(s.drop_last())
    } else {
        s
    }
}

impl RpkiClient {
    /// Keeps the base URL with trailing slashes shorn off.
    pub fn new(base_url: &str) -> (r: Self)
        ensures
            r.base_url@ == trim_trailing_slashes(base_url@),
    {
        let v = chars_of(base_url);
        let mut e = v.len();
        proof {
            assert(v@.subrange(0, e as int) =~= v@);
        }
        while e > 0 && v[e - 1] == '/'
            invariant
                e <= v@.len(),
                trim_trailing_slashes(v@) == trim_trailing_slashes(v@.subrange(0, e as int)),
            decreases e,
        {
            proof {
                let s = v@.subrange(0, e as int);
                assert(s.last() == v@[e - 1]);
                assert(s.drop_last() =~= v@.subrange(0, e - 1));
            }
            e = e - 1;
        }
        proof {
            let s = v@.subrange(0, e as int);
            if s.len() > 0 {
                assert(s.last() == v@[e - 1]);
            }
        }
        RpkiClient { base_url: chars_range_to_string(&v, 0, e) }
    }

    /// The validity endpoint for one (origin ASN, prefix) pair.
    pub fn query_url(&self, prefix: &str, asn: &str) -> (r: String)
        ensures
            r@ == self.base_url@ + "/api/v1/validity/"@ + asn@ + "/"@ + prefix@,
    {
        let mut u = self.base_url.clone();
        u.append("/api/v1/validity/");
        u.append(asn);
        u.append("/");
        u.append(prefix);
        u
    }

    /// Shapes a validator's answer into the cached validity record: the
    /// judged state and payloads when a route was validated, and the
    /// `not-found` state when none was.
    pub fn validity_from_response(asn: &str, prefix: &str, resp: RpkiResponse) -> (r: RpkiValidity)
        ensures
            r.asn@ == asn@,
            r.prefix@ == prefix@,
            r.reason is None,
            match resp.validated_route {
                Some(vr) => r.validity@ == vr.validity.state@ && r.vrps == vr.vrps,
                None => r.validity@ == "not-found"@ && r.vrps is None,
            },
    {
        match resp.validated_route {
            Some(vr) => RpkiValidity {
                asn: String::from_str(asn),
                prefix: String::from_str(prefix),
                validity: vr.validity.state,
                reason: None,
                vrps: vr.vrps,
            },
            None => RpkiValidity {
                asn: String::from_str(asn),
                prefix: String::from_str(prefix),
                validity: String::from_str("not-found"),
                reason: None,
                vrps: None,
            },
        }
    }
}

} // verus!
