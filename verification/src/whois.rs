//! The WHOIS enrichment: the record it contributes and the parser for the
//! key/value text a registry WHOIS server answers with.  Opening the socket
//! and reading the response are left to the surrounding program; the parser
//! here is verified against a line-by-line specification of the format.

use vstd::prelude::*;
use vstd::string::StringExecFns;
use crate::cloning::DeepClone;
use crate::ip::find_char;
use crate::text::{chars_range_to_string, split_lines, split_lines_exec, trim_range, trim_spec};

verus! {

/// What a WHOIS lookup contributes to a record.
pub struct WhoisInfo {
    pub country: Option<String>,
    pub netname: Option<String>,
    pub descr: Option<String>,
    pub org: Option<String>,
    pub admin_c: Option<String>,
    pub tech_c: Option<String>,
    pub mnt_by: Option<String>,
    pub last_modified: Option<String>,
    pub raw_response: String,
}

pub ghost struct WhoisInfoView {
    pub country: Option<Seq<char>>,
    pub netname: Option<Seq<char>>,
    pub descr: Option<Seq<char>>,
    pub org: Option<Seq<char>>,
    pub admin_c: Option<Seq<char>>,
    pub tech_c: Option<Seq<char>>,
    pub mnt_by: Option<Seq<char>>,
    pub last_modified: Option<Seq<char>>,
    pub raw_response: Seq<char>,
}

impl DeepView for WhoisInfo {
    type V = WhoisInfoView;

    open spec fn deep_view(&self) -> WhoisInfoView {
        WhoisInfoView {
            country: self.country.deep_view(),
            netname: self.netname.deep_view(),
            descr: self.descr.deep_view(),
            org: self.org.deep_view(),
            admin_c: self.admin_c.deep_view(),
            tech_c: self.tech_c.deep_view(),
            mnt_by: self.mnt_by.deep_view(),
            last_modified: self.last_modified.deep_view(),
            raw_response: self.raw_response.deep_view(),
        }
    }
}

impl DeepClone for WhoisInfo {
    fn deep_clone(&self) -> (res: Self)
        ensures
            res.deep_view() == self.deep_view(),
    {
        WhoisInfo {
            country: self.country.deep_clone(),
            netname: self.netname.deep_clone(),
            descr: self.descr.deep_clone(),
            org: self.org.deep_clone(),
            admin_c: self.admin_c.deep_clone(),
            tech_c: self.tech_c.deep_clone(),
            mnt_by: self.mnt_by.deep_clone(),
            last_modified: self.last_modified.deep_clone(),
            raw_response: self.raw_response.deep_clone(),
        }
    }
}

impl Clone for WhoisInfo {
    fn clone(&self) -> (res: Self)
        ensures
            res.deep_view() == self.deep_view(),
    {
        self.deep_clone()
    }
}

/// The WHOIS text-protocol client.  The socket I/O lives outside the
/// library; the parsing of the answer is [`WhoisClient::parse_response`].
pub struct WhoisClient;

// ---------------------------------------------------------------------------
// Parsing a registry answer
// ---------------------------------------------------------------------------

/// The fields gathered while walking the answer's lines.
pub ghost struct WhoisAcc {
    pub country: Option<Seq<char>>,
    pub netname: Option<Seq<char>>,
    pub descr: Option<Seq<char>>,
    pub org: Option<Seq<char>>,
    pub admin_c: Option<Seq<char>>,
    pub tech_c: Option<Seq<char>>,
    pub mnt_by: Option<Seq<char>>,
    pub last_modified: Option<Seq<char>>,
}

pub open spec fn whois_acc_empty() -> WhoisAcc {
    WhoisAcc {
        country: None,
        netname: None,
        descr: None,
        org: None,
        admin_c: None,
        tech_c: None,
        mnt_by: None,
        last_modified: None,
    }
}

/// One line of the answer: a trimmed `key: value` pair updates its field;
/// comments, empty lines and unknown keys change nothing; a repeated
/// `descr` keeps the first value, every other repeated key keeps the last.
pub open spec fn whois_step(acc: WhoisAcc, line: Seq<char>) -> WhoisAcc {
    let t = trim_spec(line);
    if t.len() == 0 || t[0] == '%' || t[0] == '#' {
        acc
    } else {
        let i = find_char(t, ':');
        if i < 0 {
            acc
        } else {
            let key = trim_spec(t.take(i));
            let value = trim_spec(t.skip(i + 1));
            if key == "country"@ {
                WhoisAcc { country: Some(value), ..acc }
            } else if key == "netname"@ {
                WhoisAcc { netname: Some(value), ..acc }
            } else if key == "descr"@ {
                if acc.descr is None {
                    WhoisAcc { descr: Some(value), ..acc }
                } else {
                    acc
                }
            } else if key == "org"@ || key == "organisation"@ {
                WhoisAcc { org: Some(value), ..acc }
            } else if key == "admin-c"@ {
                WhoisAcc { admin_c: Some(value), ..acc }
            } else if key == "tech-c"@ {
                WhoisAcc { tech_c: Some(value), ..acc }
            } else if key == "mnt-by"@ {
                WhoisAcc { mnt_by: Some(value), ..acc }
            } else if key == "last-modified"@ {
                WhoisAcc { last_modified: Some(value), ..acc }
            } else {
                acc
            }
        }
    }
}

pub open spec fn whois_run(lines: Seq<Seq<char>>, acc: WhoisAcc) -> WhoisAcc
    decreases lines.len(),
{
    if lines.len() == 0 {
        acc
    } else {
        whois_run(lines.skip(1), whois_step(acc, lines[0]))
    }
}

/// What parsing a whole answer yields.
pub open spec fn spec_parse_whois(s: Seq<char>) -> WhoisAcc {
    whois_run(split_lines(s), whois_acc_empty())
}

impl WhoisClient {
    /// Reads the `key: value` lines of a registry answer into a record;
    /// the raw text is kept alongside the extracted fields.
    pub fn parse_response(response: &str) -> (r: WhoisInfo)
        ensures
            ({
                let acc = spec_parse_whois(response@);
                &&& r.country.deep_view() == acc.country
                &&& r.netname.deep_view() == acc.netname
                &&& r.descr.deep_view() == acc.descr
                &&& r.org.deep_view() == acc.org
                &&& r.admin_c.deep_view() == acc.admin_c
                &&& r.tech_c.deep_view() == acc.tech_c
                &&& r.mnt_by.deep_view() == acc.mnt_by
                &&& r.last_modified.deep_view() == acc.last_modified
                &&& r.raw_response@ == response@
            }),
    {
        let v = crate::ip::chars_of(response);
        let lines = split_lines_exec(&v);
        let ghost ls = split_lines(v@);
        let n = lines.len();
        proof {
            assert(ls.len() == n);
        }
        let mut out = WhoisInfo {
            country: None,
            netname: None,
            descr: None,
            org: None,
            admin_c: None,
            tech_c: None,
            mnt_by: None,
            last_modified: None,
            raw_response: String::from_str(response),
        };
        let ghost acc0 = whois_acc_empty();
        let mut i: usize = 0;
        proof {
            assert(ls.skip(0) =~= ls);
        }
        while i < n
            invariant
                n == lines@.len(),
                ls.len() == n,
                i <= n,
                forall|j: int|
                    0 <= j < n ==> lines@[j].0 <= lines@[j].1 <= v@.len() && #[trigger] v@.subrange(
                        lines@[j].0 as int,
                        lines@[j].1 as int,
                    ) == ls[j],
                whois_run(ls, acc0) == whois_run(
                    ls.skip(i as int),
                    WhoisAcc {
                        country: out.country.deep_view(),
                        netname: out.netname.deep_view(),
                        descr: out.descr.deep_view(),
                        org: out.org.deep_view(),
                        admin_c: out.admin_c.deep_view(),
                        tech_c: out.tech_c.deep_view(),
                        mnt_by: out.mnt_by.deep_view(),
                        last_modified: out.last_modified.deep_view(),
                    },
                ),
                out.raw_response@ == response@,
            decreases n - i,
        {
            let ghost acc_cur = WhoisAcc {
                country: out.country.deep_view(),
                netname: out.netname.deep_view(),
                descr: out.descr.deep_view(),
                org: out.org.deep_view(),
                admin_c: out.admin_c.deep_view(),
                tech_c: out.tech_c.deep_view(),
                mnt_by: out.mnt_by.deep_view(),
                last_modified: out.last_modified.deep_view(),
            };
            proof {
                assert(ls.skip(i as int)[0] == ls[i as int]);
                assert(ls.skip(i as int).skip(1) =~= ls.skip(i + 1));
            }
            let (lf, lt) = (lines[i].0, lines[i].1);
            let ghost line = ls[i as int];
            assert(v@.subrange(lf as int, lt as int) == line);
            let (tf, tt) = trim_range(&v, lf, lt);
            let ghost t = trim_spec(line);
            assert(v@.subrange(tf as int, tt as int) == t);
            if tf == tt || v[tf] == '%' || v[tf] == '#' {
                proof {
                    if tf < tt {
                        assert(t[0] == v@[tf as int]);
                    }
                    assert(whois_step(acc_cur, line) == acc_cur);
                }
            } else {
                assert(t[0] == v@[tf as int]);
                match crate::ip::find_char_range_pub(&v, tf, tt, ':') {
                    None => {
                        proof {
                            assert(whois_step(acc_cur, line) == acc_cur);
                        }
                    },
                    Some(ci) => {
                        proof {
                            assert(t.take(ci - tf) =~= v@.subrange(tf as int, ci as int));
                            assert(t.skip(ci - tf + 1) =~= v@.subrange(ci + 1, tt as int));
                        }
                        let (kf, kt) = trim_range(&v, tf, ci);
                        let (vf, vt) = trim_range(&v, ci + 1, tt);
                        let ghost key = trim_spec(t.take(ci - tf));
                        let ghost value = trim_spec(t.skip(ci - tf + 1));
                        assert(v@.subrange(kf as int, kt as int) == key);
                        assert(v@.subrange(vf as int, vt as int) == value);
                        let k = chars_range_to_string(&v, kf, kt);
                        if k.eq(&String::from_str("country")) {
                            out.country = Some(chars_range_to_string(&v, vf, vt));
                        } else if k.eq(&String::from_str("netname")) {
                            out.netname = Some(chars_range_to_string(&v, vf, vt));
                        } else if k.eq(&String::from_str("descr")) {
                            if out.descr.is_none() {
                                out.descr = Some(chars_range_to_string(&v, vf, vt));
                            }
                        } else if k.eq(&String::from_str("org")) || k.eq(
                            &String::from_str("organisation"),
                        ) {
                            out.org = Some(chars_range_to_string(&v, vf, vt));
                        } else if k.eq(&String::from_str("admin-c")) {
                            out.admin_c = Some(chars_range_to_string(&v, vf, vt));
                        } else if k.eq(&String::from_str("tech-c")) {
                            out.tech_c = Some(chars_range_to_string(&v, vf, vt));
                        } else if k.eq(&String::from_str("mnt-by")) {
                            out.mnt_by = Some(chars_range_to_string(&v, vf, vt));
                        } else if k.eq(&String::from_str("last-modified")) {
                            out.last_modified = Some(chars_range_to_string(&v, vf, vt));
                        }
                    },
                }
            }
            i = i + 1;
        }
        proof {
            assert(ls.skip(n as int) =~= Seq::<Seq<char>>::empty());
        }
        out
    }
}

} // verus!
