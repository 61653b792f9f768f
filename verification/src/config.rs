//! The endpoint set and its normalization rules.
//!
//! The three base URLs — site, v1 API, v2 API — are derived together from
//! one user-supplied domain or URL at login, and persisted together, so
//! they can never drift apart between invocations. Loading and saving the
//! file lives outside the library; the rules live here.
use vstd::prelude::*;
use crate::auth::AuthMethod;
use crate::strutil::{
    chars_concat, chars_starts_with, chars_string, chars_trim, chars_trim_end_char, chars_eq,
    chars_ends_with, chars_subrange, decimal_of, ends_with, starts_with, str_chars, trim_end_char,
    trimmed, u64_string,
};
use crate::urlwrap::{
    url_host, url_host_of, url_parse, url_parse_of, url_path, url_path_of, url_port, url_port_of,
    url_scheme, url_scheme_of, url_with_path, url_with_path_of,
};

verus! {

pub open spec fn invalid_url_text() -> Seq<char> {
    "Invalid Confluence URL"@
}

pub open spec fn missing_host_text() -> Seq<char> {
    "Invalid Confluence URL: missing host"@
}

pub open spec fn bad_scheme_text(scheme: Seq<char>) -> Seq<char> {
    "Invalid URL scheme '"@ + scheme + "'. Use http or https."@
}

/// The input with `https://` put in front unless a scheme is already there.
pub open spec fn spec_with_scheme(t: Seq<char>) -> Seq<char> {
    if starts_with(t, "http://"@) || starts_with(t, "https://"@) {
        t
    } else {
        "https://"@ + t
    }
}

fn with_scheme(t: &Vec<char>) -> (r: Vec<char>)
    ensures
        r@ == spec_with_scheme(t@),
{
    let p1 = str_chars("http://");
    let p2 = str_chars("https://");
    if chars_starts_with(t, &p1) || chars_starts_with(t, &p2) {
        chars_subrange(t, 0, t.len())
    } else {
        proof {
            assert(t@.subrange(0, t@.len() as int) =~= t@);
        }
        chars_concat(&p2, t)
    }
}

pub open spec fn is_web_scheme(s: Seq<char>) -> bool {
    s == "http"@ || s == "https"@
}

/// The site URL a user gave, normalized: scheme defaulted to https, scheme
/// and host checked, the `/wiki` web base defaulted in for a bare cloud
/// domain, and any trailing slashes dropped.
pub open spec fn spec_normalize_site_url(input: Seq<char>) -> Result<Seq<char>, Seq<char>> {
    let s = spec_with_scheme(trimmed(input));
    match url_scheme_of(s) {
        None => Err(invalid_url_text()),
        Some(scheme) => if !is_web_scheme(scheme) {
            Err(bad_scheme_text(scheme))
        } else {
            match url_host_of(s) {
                None => Err(invalid_url_text()),
                Some(None) => Err(missing_host_text()),
                Some(Some(host)) => {
                    match url_path_of(s) {
                        None => Err(invalid_url_text()),
                        Some(path) => {
                            let cloud_root = ends_with(host, ".atlassian.net"@) && (path.len()
                                == 0 || path == "/"@);
                            if cloud_root {
                                match url_with_path_of(s, "/wiki"@) {
                                    None => Err(invalid_url_text()),
                                    Some(n) => Ok(trim_end_char(n, '/')),
                                }
                            } else {
                                match url_parse_of(s) {
                                    None => Err(invalid_url_text()),
                                    Some(n) => Ok(trim_end_char(n, '/')),
                                }
                            }
                        },
                    }
                },
            }
        },
    }
}

fn invalid_url_err() -> (r: String)
    ensures
        r@ == invalid_url_text(),
{
    String::from_str("Invalid Confluence URL")
}

fn bad_scheme_err(scheme: &String) -> (r: String)
    ensures
        r@ == bad_scheme_text(scheme@),
{
    let head = str_chars("Invalid URL scheme '");
    let sc = str_chars(scheme.as_str());
    let tail = str_chars("'. Use http or https.");
    let m1 = chars_concat(&head, &sc);
    let m2 = chars_concat(&m1, &tail);
    proof {
        assert(m2@ =~= bad_scheme_text(scheme@));
    }
    chars_string(&m2)
}

/// A user-supplied site URL, normalized.
pub fn normalize_site_url(input: &str) -> (r: Result<String, String>)
    ensures
        match r {
            Ok(u) => spec_normalize_site_url(input@) == Ok::<Seq<char>, Seq<char>>(u@),
            Err(e) => spec_normalize_site_url(input@) == Err::<Seq<char>, Seq<char>>(e@),
        },
{
    let ic = str_chars(input);
    let t = chars_trim(&ic);
    let sv = with_scheme(&t);
    let s = chars_string(&sv);
    let scheme = match url_scheme(s.as_str()) {
        Some(x) => x,
        None => {
            return Err(invalid_url_err());
        },
    };
    let http = str_chars("http");
    let https = str_chars("https");
    let sc = str_chars(scheme.as_str());
    if !(chars_eq(&sc, &http) || chars_eq(&sc, &https)) {
        return Err(bad_scheme_err(&scheme));
    }
    let host = match url_host(s.as_str()) {
        Some(Some(h)) => h,
        Some(None) => {
            return Err(String::from_str("Invalid Confluence URL: missing host"));
        },
        None => {
            return Err(invalid_url_err());
        },
    };
    let path = match url_path(s.as_str()) {
        Some(p) => p,
        None => {
            return Err(invalid_url_err());
        },
    };
    let hc = str_chars(host.as_str());
    let cloud_suffix = str_chars(".atlassian.net");
    let pc = str_chars(path.as_str());
    let slash = str_chars("/");
    let cloud_root = chars_ends_with(&hc, &cloud_suffix) && (pc.len() == 0 || chars_eq(
        &pc,
        &slash,
    ));
    let with_path = if cloud_root {
        match url_with_path(s.as_str(), "/wiki") {
            Some(n) => n,
            None => {
                return Err(invalid_url_err());
            },
        }
    } else {
        match url_parse(s.as_str()) {
            Some(n) => n,
            None => {
                return Err(invalid_url_err());
            },
        }
    };
    let nc = str_chars(with_path.as_str());
    let out = chars_trim_end_char(&nc, '/');
    Ok(chars_string(&out))
}

/// A full API base URL, normalized: scheme and host checked, trailing
/// slashes dropped.
pub open spec fn spec_normalize_full_url(input: Seq<char>) -> Result<Seq<char>, Seq<char>> {
    let s = trimmed(input);
    match url_scheme_of(s) {
        None => Err("Invalid API base URL"@),
        Some(scheme) => if !is_web_scheme(scheme) {
            Err(bad_scheme_text(scheme))
        } else {
            match url_host_of(s) {
                None => Err("Invalid API base URL"@),
                Some(None) => Err("Invalid API base URL: missing host"@),
                Some(Some(host)) => match url_parse_of(s) {
                    None => Err("Invalid API base URL"@),
                    Some(n) => Ok(trim_end_char(n, '/')),
                },
            }
        },
    }
}

pub fn normalize_full_url(input: &str) -> (r: Result<String, String>)
    ensures
        match r {
            Ok(u) => spec_normalize_full_url(input@) == Ok::<Seq<char>, Seq<char>>(u@),
            Err(e) => spec_normalize_full_url(input@) == Err::<Seq<char>, Seq<char>>(e@),
        },
{
    let ic = str_chars(input);
    let tv = chars_trim(&ic);
    let s = chars_string(&tv);
    let scheme = match url_scheme(s.as_str()) {
        Some(x) => x,
        None => {
            return Err(String::from_str("Invalid API base URL"));
        },
    };
    let http = str_chars("http");
    let https = str_chars("https");
    let sc = str_chars(scheme.as_str());
    if !(chars_eq(&sc, &http) || chars_eq(&sc, &https)) {
        return Err(bad_scheme_err(&scheme));
    }
    match url_host(s.as_str()) {
        Some(Some(_)) => {},
        Some(None) => {
            return Err(String::from_str("Invalid API base URL: missing host"));
        },
        None => {
            return Err(String::from_str("Invalid API base URL"));
        },
    }
    match url_parse(s.as_str()) {
        Some(n) => {
            let nc = str_chars(n.as_str());
            let out = chars_trim_end_char(&nc, '/');
            Ok(chars_string(&out))
        },
        None => Err(String::from_str("Invalid API base URL")),
    }
}

/// The scheme, host and optional port of a URL, as "scheme://host[:port]".
pub open spec fn spec_origin_from_url(site: Seq<char>) -> Result<Seq<char>, Seq<char>> {
    match url_scheme_of(site) {
        None => Err(invalid_url_text()),
        Some(scheme) => match url_host_of(site) {
            None => Err(invalid_url_text()),
            Some(None) => Err(missing_host_text()),
            Some(Some(host)) => {
                let port = match url_port_of(site) {
                    Some(Some(p)) => seq![':'] + decimal_of(p as nat),
                    _ => Seq::<char>::empty(),
                };
                Ok(scheme + "://"@ + host + port)
            },
        },
    }
}

/// The origin of a URL: used to resolve absolute paths from pagination and
/// download links without losing the scheme and port.
pub fn origin_from_url(site: &str) -> (r: Result<String, String>)
    ensures
        match r {
            Ok(u) => spec_origin_from_url(site@) == Ok::<Seq<char>, Seq<char>>(u@),
            Err(e) => spec_origin_from_url(site@) == Err::<Seq<char>, Seq<char>>(e@),
        },
{
    let scheme = match url_scheme(site) {
        Some(x) => x,
        None => {
            return Err(invalid_url_err());
        },
    };
    let host = match url_host(site) {
        Some(Some(h)) => h,
        Some(None) => {
            return Err(String::from_str("Invalid Confluence URL: missing host"));
        },
        None => {
            return Err(invalid_url_err());
        },
    };
    let port: Vec<char> = match url_port(site) {
        Some(Some(p)) => {
            let mut v: Vec<char> = Vec::new();
            v.push(':');
            let d = u64_string(p as u64);
            let dc = str_chars(d.as_str());
            let out = chars_concat(&v, &dc);
            proof {
                assert(v@ =~= seq![':']);
                assert(out@ =~= seq![':'] + decimal_of(p as nat));
            }
            out
        },
        _ => Vec::new(),
    };
    let sc = str_chars(scheme.as_str());
    let sep = str_chars("://");
    let hc = str_chars(host.as_str());
    let m1 = chars_concat(&sc, &sep);
    let m2 = chars_concat(&m1, &hc);
    let m3 = chars_concat(&m2, &port);
    proof {
        match url_port_of(site@) {
            Some(Some(p)) => {
                assert(m3@ =~= scheme@ + "://"@ + host@ + (seq![':'] + decimal_of(p as nat)));
            },
            _ => {
                assert(port@ =~= Seq::<char>::empty());
                assert(m3@ =~= scheme@ + "://"@ + host@ + Seq::<char>::empty());
            },
        }
    }
    Ok(chars_string(&m3))
}

/// A path with exactly one leading slash added where it was missing.
pub open spec fn spec_ensure_leading_slash(s: Seq<char>) -> Seq<char> {
    let t = trimmed(s);
    if t.len() > 0 && t[0] == '/' {
        t
    } else {
        seq!['/'] + t
    }
}

pub fn ensure_leading_slash(s: &str) -> (r: String)
    ensures
        r@ == spec_ensure_leading_slash(s@),
{
    let cs = str_chars(s);
    let t = chars_trim(&cs);
    if t.len() > 0 && t[0] == '/' {
        chars_string(&t)
    } else {
        let mut v: Vec<char> = Vec::new();
        v.push('/');
        let out = chars_concat(&v, &t);
        proof {
            assert(v@ =~= seq!['/']);
            assert(out@ =~= seq!['/'] + trimmed(s@));
        }
        chars_string(&out)
    }
}

/// The default v1 API path: under `/wiki` on a cloud-style site URL.
pub open spec fn spec_default_api_path_v1(site_url: Seq<char>) -> Seq<char> {
    if ends_with(trim_end_char(site_url, '/'), "/wiki"@) {
        "/wiki/rest/api"@
    } else {
        "/rest/api"@
    }
}

pub fn default_api_path_v1(site_url: &str) -> (r: String)
    ensures
        r@ == spec_default_api_path_v1(site_url@),
{
    let cs = str_chars(site_url);
    let t = chars_trim_end_char(&cs, '/');
    let suffix = str_chars("/wiki");
    if chars_ends_with(&t, &suffix) {
        String::from_str("/wiki/rest/api")
    } else {
        String::from_str("/rest/api")
    }
}

/// The v2 API path derived from the v1 path: `/.../rest/api` becomes
/// `/.../api/v2`, and anything else falls back to `/api/v2`.
pub open spec fn spec_derive_api_path_v2(api_path_v1: Seq<char>) -> Seq<char> {
    let t = trim_end_char(api_path_v1, '/');
    if ends_with(t, "/rest/api"@) {
        t.subrange(0, t.len() - 9) + "/api/v2"@
    } else {
        "/api/v2"@
    }
}

pub fn derive_api_path_v2(api_path_v1: &str) -> (r: String)
    ensures
        r@ == spec_derive_api_path_v2(api_path_v1@),
{
    let cs = str_chars(api_path_v1);
    let t = chars_trim_end_char(&cs, '/');
    let suffix = str_chars("/rest/api");
    if chars_ends_with(&t, &suffix) {
        proof {
            reveal_strlit("/rest/api");
            assert(suffix@.len() == 9);
        }
        let prefix = chars_subrange(&t, 0, t.len() - suffix.len());
        let tail = str_chars("/api/v2");
        let out = chars_concat(&prefix, &tail);
        proof {
            assert(out@ =~= trim_end_char(api_path_v1@, '/').subrange(
                0,
                trim_end_char(api_path_v1@, '/').len() - 9,
            ) + "/api/v2"@);
        }
        chars_string(&out)
    } else {
        String::from_str("/api/v2")
    }
}

/// The default v1 API path for a host: under `/wiki` for a cloud domain.
pub open spec fn spec_default_path_for_host(host: Seq<char>) -> Seq<char> {
    if ends_with(host, ".atlassian.net"@) {
        "/wiki/rest/api"@
    } else {
        "/rest/api"@
    }
}

/// The v1 API path used: a non-blank override (given a leading slash), else
/// the host's default.
pub open spec fn spec_api_path_v1_choice(host: Seq<char>, over: Option<Seq<char>>) -> Seq<
    char,
> {
    match over {
        Some(o) => if trimmed(o).len() > 0 {
            spec_ensure_leading_slash(o)
        } else {
            spec_default_path_for_host(host)
        },
        None => spec_default_path_for_host(host),
    }
}

/// Both API bases derived from the site URL: the origin plus the v1 path,
/// and the origin plus the v2 path derived from the v1 path.
pub open spec fn spec_api_bases(site: Seq<char>, over: Option<Seq<char>>) -> Result<
    (Seq<char>, Seq<char>),
    Seq<char>,
> {
    match spec_origin_from_url(site) {
        Err(e) => Err(e),
        Ok(origin) => match url_host_of(site) {
            Some(Some(host)) => {
                let path1 = spec_api_path_v1_choice(host, over);
                let path2 = spec_derive_api_path_v2(path1);
                Ok(
                    (
                        origin + trim_end_char(path1, '/'),
                        origin + trim_end_char(path2, '/'),
                    ),
                )
            },
            _ => Err(invalid_url_text()),
        },
    }
}

/// The v1 and v2 API base URLs for a site, with an optional explicit v1
/// path (the caller's configuration) taking precedence over the default.
pub fn api_bases(site_url: &str, api_path_override: Option<&String>) -> (r: Result<
    (String, String),
    String,
>)
    ensures
        match r {
            Ok(bases) => spec_api_bases(
                site_url@,
                match api_path_override {
                    Some(o) => Some(o@),
                    None => None,
                },
            ) == Ok::<(Seq<char>, Seq<char>), Seq<char>>((bases.0@, bases.1@)),
            Err(e) => spec_api_bases(
                site_url@,
                match api_path_override {
                    Some(o) => Some(o@),
                    None => None,
                },
            ) == Err::<(Seq<char>, Seq<char>), Seq<char>>(e@),
        },
{
    let origin = match origin_from_url(site_url) {
        Ok(o) => o,
        Err(e) => {
            return Err(e);
        },
    };
    let host = match url_host(site_url) {
        Some(Some(h)) => h,
        _ => {
            return Err(invalid_url_err());
        },
    };
    let path1: String = match api_path_override {
        Some(o) => {
            let oc = str_chars(o.as_str());
            let t = chars_trim(&oc);
            if t.len() > 0 {
                ensure_leading_slash(o.as_str())
            } else {
                default_path_for_host(&host)
            }
        },
        None => default_path_for_host(&host),
    };
    let path2 = derive_api_path_v2(path1.as_str());
    let oc = str_chars(origin.as_str());
    let p1c = str_chars(path1.as_str());
    let p1t = chars_trim_end_char(&p1c, '/');
    let base1 = chars_concat(&oc, &p1t);
    let p2c = str_chars(path2.as_str());
    let p2t = chars_trim_end_char(&p2c, '/');
    let base2 = chars_concat(&oc, &p2t);
    Ok((chars_string(&base1), chars_string(&base2)))
}

fn default_path_for_host(host: &String) -> (r: String)
    ensures
        r@ == spec_default_path_for_host(host@),
{
    let hc = str_chars(host.as_str());
    let suffix = str_chars(".atlassian.net");
    if chars_ends_with(&hc, &suffix) {
        String::from_str("/wiki/rest/api")
    } else {
        String::from_str("/rest/api")
    }
}

/// The persisted configuration: the endpoint set and the credential.
pub struct Config {
    pub site_url: String,
    pub api_base_v1: String,
    pub api_base_v2: String,
    pub auth: AuthMethod,
}

/// What normalizing a configuration yields: the normalized site URL, and
/// either the two bases normalized, or — where one is blank, as configs
/// written before the base fields existed are — the bases derived afresh
/// from the site URL.
pub open spec fn spec_backfill(
    site: Seq<char>,
    v1: Seq<char>,
    v2: Seq<char>,
    over: Option<Seq<char>>,
) -> Result<(Seq<char>, Seq<char>, Seq<char>), Seq<char>> {
    match spec_normalize_site_url(site) {
        Err(e) => Err(e),
        Ok(ns) => if trimmed(v1).len() == 0 || trimmed(v2).len() == 0 {
            match spec_api_bases(ns, over) {
                Err(e) => Err(e),
                Ok(bases) => Ok(
                    (
                        ns,
                        if trimmed(v1).len() == 0 {
                            bases.0
                        } else {
                            v1
                        },
                        if trimmed(v2).len() == 0 {
                            bases.1
                        } else {
                            v2
                        },
                    ),
                ),
            }
        } else {
            match spec_normalize_full_url(v1) {
                Err(e) => Err(e),
                Ok(n1) => match spec_normalize_full_url(v2) {
                    Err(e) => Err(e),
                    Ok(n2) => Ok((ns, n1, n2)),
                },
            }
        },
    }
}

impl Config {
    /// Normalizes the site URL, then either normalizes both API bases or —
    /// where a base is blank — derives it from the site URL, with
    /// `api_path_override` standing for an explicitly configured v1 path.
    pub fn normalize_and_backfill(&mut self, api_path_override: Option<&String>) -> (r: Result<
        (),
        String,
    >)
        ensures
            r is Ok ==> spec_backfill(
                old(self).site_url@,
                old(self).api_base_v1@,
                old(self).api_base_v2@,
                match api_path_override {
                    Some(o) => Some(o@),
                    None => None,
                },
            ) == Ok::<(Seq<char>, Seq<char>, Seq<char>), Seq<char>>(
                (final(self).site_url@, final(self).api_base_v1@, final(self).api_base_v2@),
            ) && final(self).auth == old(self).auth,
            r matches Err(e) ==> spec_backfill(
                old(self).site_url@,
                old(self).api_base_v1@,
                old(self).api_base_v2@,
                match api_path_override {
                    Some(o) => Some(o@),
                    None => None,
                },
            ) == Err::<(Seq<char>, Seq<char>, Seq<char>), Seq<char>>(e@),
    {
        let ns = match normalize_site_url(self.site_url.as_str()) {
            Ok(u) => u,
            Err(e) => {
                return Err(e);
            },
        };
        let v1c = str_chars(self.api_base_v1.as_str());
        let v1t = chars_trim(&v1c);
        let v2c = str_chars(self.api_base_v2.as_str());
        let v2t = chars_trim(&v2c);
        if v1t.len() == 0 || v2t.len() == 0 {
            let bases = match api_bases(ns.as_str(), api_path_override) {
                Ok(b) => b,
                Err(e) => {
                    return Err(e);
                },
            };
            if v1t.len() == 0 {
                self.api_base_v1 = bases.0;
            }
            if v2t.len() == 0 {
                self.api_base_v2 = bases.1;
            }
            self.site_url = ns;
            Ok(())
        } else {
            let n1 = match normalize_full_url(self.api_base_v1.as_str()) {
                Ok(u) => u,
                Err(e) => {
                    return Err(e);
                },
            };
            let n2 = match normalize_full_url(self.api_base_v2.as_str()) {
                Ok(u) => u,
                Err(e) => {
                    return Err(e);
                },
            };
            self.site_url = ns;
            self.api_base_v1 = n1;
            self.api_base_v2 = n2;
            Ok(())
        }
    }
}

} // verus!
