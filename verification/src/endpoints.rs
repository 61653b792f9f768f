//! The three base URLs every request is composed from.
use vstd::prelude::*;
use crate::config::{spec_origin_from_url, origin_from_url};
use crate::strutil::{
    chars_concat, chars_string, chars_trim_end_char, str_chars, trim_end_char,
};
use crate::urlwrap::url_append_pairs_of;
use crate::urlwrap::url_append_pairs;

verus! {

/// The endpoint set: a human-facing site URL, a v1 API base, a v2 API base,
/// and the origin used to resolve absolute paths — all derived together and
/// kept without trailing slashes.
pub struct Endpoints {
    pub site_url: String,
    pub api_base_v1: String,
    pub api_base_v2: String,
    pub origin: String,
}

impl Endpoints {
    /// The endpoint set for the given bases, each stripped of trailing
    /// slashes; fails only where the site URL has no scheme or host.
    pub fn new(site_url: String, api_base_v1: String, api_base_v2: String) -> (r: Result<
        Endpoints,
        String,
    >)
        ensures
            match r {
                Ok(ep) => {
                    &&& ep.site_url@ == trim_end_char(site_url@, '/')
                    &&& ep.api_base_v1@ == trim_end_char(api_base_v1@, '/')
                    &&& ep.api_base_v2@ == trim_end_char(api_base_v2@, '/')
                    &&& spec_origin_from_url(trim_end_char(site_url@, '/')) == Ok::<
                        Seq<char>,
                        Seq<char>,
                    >(ep.origin@)
                },
                Err(e) => spec_origin_from_url(trim_end_char(site_url@, '/')) == Err::<
                    Seq<char>,
                    Seq<char>,
                >(e@),
            },
    {
        let sc = str_chars(site_url.as_str());
        let site = chars_string(&chars_trim_end_char(&sc, '/'));
        let v1c = str_chars(api_base_v1.as_str());
        let v1 = chars_string(&chars_trim_end_char(&v1c, '/'));
        let v2c = str_chars(api_base_v2.as_str());
        let v2 = chars_string(&chars_trim_end_char(&v2c, '/'));
        match origin_from_url(site.as_str()) {
            Ok(origin) => Ok(
                Endpoints { site_url: site, api_base_v1: v1, api_base_v2: v2, origin },
            ),
            Err(e) => Err(e),
        }
    }

    /// The web base URL, for browser links and download links.
    pub fn base_url<'a>(&'a self) -> (r: &'a str)
        ensures
            r@ == self.site_url@,
    {
        self.site_url.as_str()
    }

    /// The scheme, host and port alone.
    pub fn origin_url<'a>(&'a self) -> (r: &'a str)
        ensures
            r@ == self.origin@,
    {
        self.origin.as_str()
    }

    /// A v1 API URL: the v1 base followed by `path`.
    pub fn v1_url(&self, path: &str) -> (r: String)
        ensures
            r@ == self.api_base_v1@ + path@,
    {
        let b = str_chars(self.api_base_v1.as_str());
        let p = str_chars(path);
        let out = chars_concat(&b, &p);
        chars_string(&out)
    }

    /// A v2 API URL: the v2 base followed by `path`.
    pub fn v2_url(&self, path: &str) -> (r: String)
        ensures
            r@ == self.api_base_v2@ + path@,
    {
        let b = str_chars(self.api_base_v2.as_str());
        let p = str_chars(path);
        let out = chars_concat(&b, &p);
        chars_string(&out)
    }
}

pub open spec fn bad_query_base_text(base: Seq<char>) -> Seq<char> {
    "Invalid URL '"@ + base + "'"@
}

/// `base` with the pairs appended to its query, percent-encoded — user
/// input is never spliced into a URL by hand.
pub fn url_with_query(base: &str, pairs: &Vec<(String, String)>) -> (r: Result<String, String>)
    ensures
        match r {
            Ok(u) => url_append_pairs_of(
                base@,
                pairs@.map_values(|p: (String, String)| (p.0@, p.1@)),
            ) == Some(u@),
            Err(e) => url_append_pairs_of(
                base@,
                pairs@.map_values(|p: (String, String)| (p.0@, p.1@)),
            ) is None && e@ == bad_query_base_text(base@),
        },
{
    match url_append_pairs(base, pairs) {
        Some(u) => Ok(u),
        None => {
            let head = str_chars("Invalid URL '");
            let b = str_chars(base);
            let tail = str_chars("'");
            let m1 = chars_concat(&head, &b);
            let m2 = chars_concat(&m1, &tail);
            proof {
                assert(m2@ =~= bad_query_base_text(base@));
            }
            Err(chars_string(&m2))
        },
    }
}

} // verus!
