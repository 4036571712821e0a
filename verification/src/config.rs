//! The service's configuration as plain values.  Reading the file and
//! decoding it happen outside the library; the lookup of a database's
//! download address is the one decision here.

use vstd::prelude::*;
use crate::cloning::DeepClone;

verus! {

pub struct AppConfig {
    pub name: String,
    pub port: u16,
}

pub struct MaxmindUrls {
    pub asn: String,
    pub city: String,
    pub country: String,
}

pub struct MaxmindConfig {
    pub account_id: u64,
    pub license_key: String,
    pub update_interval_hours: u64,
    pub download_urls: MaxmindUrls,
    pub database_dir: String,
}

pub struct Config {
    pub app: AppConfig,
    pub maxmind: MaxmindConfig,
}

/// Which configured address serves a database kind; an unknown kind gets
/// none.
pub fn download_url_for(urls: &MaxmindUrls, db_type: &str) -> (r: Option<String>)
    ensures
        db_type@ == "asn"@ ==> r is Some && r->0@ == urls.asn@,
        db_type@ == "city"@ ==> r is Some && r->0@ == urls.city@,
        db_type@ == "country"@ ==> r is Some && r->0@ == urls.country@,
        r is None ==> db_type@ != "asn"@ && db_type@ != "city"@ && db_type@ != "country"@,
{
    proof {
        reveal_strlit("asn");
        reveal_strlit("city");
        reveal_strlit("country");
        assert("asn"@.len() == 3);
        assert("city"@.len() == 4);
        assert("country"@.len() == 7);
        assert("city"@ != "asn"@);
        assert("country"@ != "asn"@);
        assert("country"@ != "city"@);
    }
    let t = db_type.to_owned();
    if t.eq(&String::from_str("asn")) {
        Some(urls.asn.deep_clone())
    } else if t.eq(&String::from_str("city")) {
        Some(urls.city.deep_clone())
    } else if t.eq(&String::from_str("country")) {
        Some(urls.country.deep_clone())
    } else {
        None
    }
}

} // verus!
