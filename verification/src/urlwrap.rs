//! Trusted views of the `url` crate: parsing, resolving and composing URLs.
//!
//! Each result below is a function of its string arguments alone, so it is
//! given a name; the contracts of the verified callers are stated over
//! those names, and the tests run against the real crate.
use vstd::prelude::*;

verus! {

/// What `url::Url::parse` yields on `s`: the parsed URL serialized back to
/// text, or nothing where `s` is not an absolute URL.
pub uninterp spec fn url_parse_of(s: Seq<char>) -> Option<Seq<char>>;

/// Relies on `url::Url::parse` and `Url::as_str`.
#[verifier::external_body]
pub fn url_parse(s: &str) -> (r: Option<String>)
    ensures
        match r {
            Some(n) => url_parse_of(s@) == Some(n@),
            None => url_parse_of(s@) is None,
        },
{
    match url::Url::parse(s) {
        Ok(u) => Some(u.as_str().to_string()),
        Err(_) => None,
    }
}

/// What resolving `rel` against the URL parsed from `base` yields, through
/// `url::Url::join`; nothing where `base` does not parse or the join fails.
pub uninterp spec fn url_join_of(base: Seq<char>, rel: Seq<char>) -> Option<Seq<char>>;

/// Relies on `url::Url::parse` and `Url::join`.
#[verifier::external_body]
pub fn url_join(base: &str, rel: &str) -> (r: Option<String>)
    ensures
        match r {
            Some(n) => url_join_of(base@, rel@) == Some(n@),
            None => url_join_of(base@, rel@) is None,
        },
{
    match url::Url::parse(base) {
        Ok(u) => match u.join(rel) {
            Ok(j) => Some(j.as_str().to_string()),
            Err(_) => None,
        },
        Err(_) => None,
    }
}

/// The scheme of the URL parsed from `s`; nothing where `s` does not parse.
pub uninterp spec fn url_scheme_of(s: Seq<char>) -> Option<Seq<char>>;

/// Relies on `url::Url::parse` and `Url::scheme`.
#[verifier::external_body]
pub fn url_scheme(s: &str) -> (r: Option<String>)
    ensures
        match r {
            Some(n) => url_scheme_of(s@) == Some(n@),
            None => url_scheme_of(s@) is None,
        },
{
    match url::Url::parse(s) {
        Ok(u) => Some(u.scheme().to_string()),
        Err(_) => None,
    }
}

/// The host of the URL parsed from `s`: the outer option is parse success,
/// the inner is whether the URL has a host at all.
pub uninterp spec fn url_host_of(s: Seq<char>) -> Option<Option<Seq<char>>>;

/// Relies on `url::Url::parse` and `Url::host_str`.
#[verifier::external_body]
pub fn url_host(s: &str) -> (r: Option<Option<String>>)
    ensures
        match r {
            Some(Some(h)) => url_host_of(s@) == Some(Some(h@)),
            Some(None) => url_host_of(s@) == Some(None::<Seq<char>>),
            None => url_host_of(s@) is None,
        },
{
    match url::Url::parse(s) {
        Ok(u) => Some(u.host_str().map(|h| h.to_string())),
        Err(_) => None,
    }
}

/// The explicit port of the URL parsed from `s`, as `url::Url::port` gives
/// it: the outer option is parse success.
pub uninterp spec fn url_port_of(s: Seq<char>) -> Option<Option<u16>>;

/// Relies on `url::Url::parse` and `Url::port`.
#[verifier::external_body]
pub fn url_port(s: &str) -> (r: Option<Option<u16>>)
    ensures
        r == url_port_of(s@),
{
    match url::Url::parse(s) {
        Ok(u) => Some(u.port()),
        Err(_) => None,
    }
}

/// The path of the URL parsed from `s`; nothing where `s` does not parse.
pub uninterp spec fn url_path_of(s: Seq<char>) -> Option<Seq<char>>;

/// Relies on `url::Url::parse` and `Url::path`.
#[verifier::external_body]
pub fn url_path(s: &str) -> (r: Option<String>)
    ensures
        match r {
            Some(p) => url_path_of(s@) == Some(p@),
            None => url_path_of(s@) is None,
        },
{
    match url::Url::parse(s) {
        Ok(u) => Some(u.path().to_string()),
        Err(_) => None,
    }
}

/// The URL parsed from `s` with its path replaced by `path`, serialized;
/// nothing where `s` does not parse.
pub uninterp spec fn url_with_path_of(s: Seq<char>, path: Seq<char>) -> Option<Seq<char>>;

/// Relies on `url::Url::parse`, `Url::set_path` and `Url::as_str`.
#[verifier::external_body]
pub fn url_with_path(s: &str, path: &str) -> (r: Option<String>)
    ensures
        match r {
            Some(n) => url_with_path_of(s@, path@) == Some(n@),
            None => url_with_path_of(s@, path@) is None,
        },
{
    match url::Url::parse(s) {
        Ok(mut u) => {
            u.set_path(path);
            Some(u.as_str().to_string())
        },
        Err(_) => None,
    }
}

/// The decoded query pairs of the URL parsed from `s`, in order; nothing
/// where `s` does not parse.
pub uninterp spec fn url_query_pairs_of(s: Seq<char>) -> Option<Seq<(Seq<char>, Seq<char>)>>;

/// Relies on `url::Url::parse` and `Url::query_pairs`.
#[verifier::external_body]
pub fn url_query_pairs(s: &str) -> (r: Option<Vec<(String, String)>>)
    ensures
        match r {
            Some(pairs) => url_query_pairs_of(s@) == Some(
                pairs@.map_values(|p: (String, String)| (p.0@, p.1@)),
            ),
            None => url_query_pairs_of(s@) is None,
        },
{
    match url::Url::parse(s) {
        Ok(u) => Some(
            u.query_pairs().map(|(k, v)| (k.into_owned(), v.into_owned())).collect(),
        ),
        Err(_) => None,
    }
}

/// The path segments of the URL parsed from `s`: the outer option is parse
/// success, the inner is whether the URL can carry segments at all.
pub uninterp spec fn url_segments_of(s: Seq<char>) -> Option<Option<Seq<Seq<char>>>>;

/// Relies on `url::Url::parse` and `Url::path_segments`.
#[verifier::external_body]
pub fn url_segments(s: &str) -> (r: Option<Option<Vec<String>>>)
    ensures
        match r {
            Some(Some(segs)) => url_segments_of(s@) == Some(
                Some(segs@.map_values(|x: String| x@)),
            ),
            Some(None) => url_segments_of(s@) == Some(None::<Seq<Seq<char>>>),
            None => url_segments_of(s@) is None,
        },
{
    match url::Url::parse(s) {
        Ok(u) => Some(u.path_segments().map(|it| it.map(|x| x.to_string()).collect())),
        Err(_) => None,
    }
}

/// The URL parsed from `s` with the pairs appended to its query,
/// percent-encoded, serialized; nothing where `s` does not parse.
pub uninterp spec fn url_append_pairs_of(
    s: Seq<char>,
    pairs: Seq<(Seq<char>, Seq<char>)>,
) -> Option<Seq<char>>;

/// Relies on `url::Url::parse`, `Url::query_pairs_mut` (its `append_pair`)
/// and `Url::as_str`.
#[verifier::external_body]
pub fn url_append_pairs(s: &str, pairs: &Vec<(String, String)>) -> (r: Option<String>)
    ensures
        match r {
            Some(n) => url_append_pairs_of(
                s@,
                pairs@.map_values(|p: (String, String)| (p.0@, p.1@)),
            ) == Some(n@),
            None => url_append_pairs_of(
                s@,
                pairs@.map_values(|p: (String, String)| (p.0@, p.1@)),
            ) is None,
        },
{
    match url::Url::parse(s) {
        Ok(mut u) => {
            {
                let mut qp = u.query_pairs_mut();
                for (k, v) in pairs {
                    qp.append_pair(k, v);
                }
            }
            Some(u.as_str().to_string())
        },
        Err(_) => None,
    }
}

/// What `urlencoding::encode` yields on `s`: `s` percent-encoded.
pub uninterp spec fn url_encoded_of(s: Seq<char>) -> Seq<char>;

/// Relies on `urlencoding::encode`: percent-encodes everything but
/// unreserved characters; the empty string stays empty.
#[verifier::external_body]
pub fn url_encode(s: &str) -> (r: String)
    ensures
        r@ == url_encoded_of(s@),
        s@.len() == 0 ==> r@.len() == 0,
{
    urlencoding::encode(s).into_owned()
}

} // verus!
