//! Walking a cursor-style result set into one ordered collection.
//!
//! The walk is a state machine: [`PageWalk::begin_page`] hands out the next
//! URL to fetch (or detects a loop or a runaway walk before any request is
//! made), and [`PageWalk::finish_page`] takes the fetched page apart and
//! works out where to go next. The caller performs the fetches between the
//! two.
use vstd::prelude::*;
use crate::errors::ApiError;
use crate::headers::{header_value, spec_header};
use crate::jsonv::{spec_get, spec_str_field, str_field, JsonValue};
use crate::strutil::{
    chars_concat, chars_find, chars_split, chars_string, chars_subrange, chars_trim, contains_sub,
    decimal_of, find_char_idx, split_char, str_chars, trimmed, u64_string,
};
use crate::urlwrap::{url_join, url_join_of, url_parse, url_parse_of};

verus! {

/// No sane result set spans more pages than this: beyond it the walk is
/// aborted as a probable loop.
pub const DEFAULT_MAX_PAGES: u64 = 10000;

/// The `<url>` and what follows `>` in one comma-separated part of a `Link`
/// header; nothing where the angle brackets are missing or reversed.
pub open spec fn spec_angle_parts(t: Seq<char>) -> Option<(Seq<char>, Seq<char>)> {
    let i = find_char_idx(t, '<');
    let j = find_char_idx(t, '>');
    if i < t.len() && j < t.len() && i + 1 <= j {
        Some((t.subrange(i + 1, j), trimmed(t.subrange(j + 1, t.len() as int))))
    } else {
        None
    }
}

/// Whether a `Link` part's parameters mark the `next` relation.
pub open spec fn spec_is_next_rel(rel: Seq<char>) -> bool {
    contains_sub(rel, "rel=\"next\""@) || contains_sub(rel, "rel=next"@)
}

/// The URL of the first part marked `next`; scanning stops early on a part
/// with no angle-bracketed URL.
pub open spec fn spec_next_from_parts(parts: Seq<Seq<char>>) -> Option<Seq<char>>
    decreases parts.len(),
{
    if parts.len() == 0 {
        None
    } else {
        match spec_angle_parts(trimmed(parts[0])) {
            None => None,
            Some(pair) => if spec_is_next_rel(pair.1) {
                Some(pair.0)
            } else {
                spec_next_from_parts(parts.drop_first())
            },
        }
    }
}

/// The `next` URL carried by a `Link` response header, if any.
pub open spec fn spec_next_link_from_headers(headers: Seq<(String, String)>) -> Option<
    Seq<char>,
> {
    match spec_header(headers, "link"@) {
        Some(v) => spec_next_from_parts(split_char(v, ',')),
        None => None,
    }
}

/// The `next` URL in a `Link` response header, if any.
#[verifier::loop_isolation(false)]
pub fn next_link_from_headers(headers: &Vec<(String, String)>) -> (r: Option<String>)
    ensures
        match r {
            Some(u) => spec_next_link_from_headers(headers@) == Some(u@),
            None => spec_next_link_from_headers(headers@) is None,
        },
{
    let link = match header_value(headers, "link") {
        Some(v) => v,
        None => {
            return None;
        },
    };
    let cs = str_chars(link.as_str());
    let parts = chars_split(&cs, ',');
    let ghost all = parts@.map_values(|p: Vec<char>| p@);
    proof {
        assert(all.subrange(0, all.len() as int) =~= all);
    }
    let mut i: usize = 0;
    while i < parts.len()
        invariant
            i <= parts@.len(),
            all == parts@.map_values(|p: Vec<char>| p@),
            spec_next_from_parts(all) == spec_next_from_parts(
                all.subrange(i as int, all.len() as int),
            ),
        decreases parts@.len() - i,
    {
        let ghost rest = all.subrange(i as int, all.len() as int);
        proof {
            assert(rest[0] == all[i as int]);
            assert(rest.drop_first() =~= all.subrange(i + 1, all.len() as int));
        }
        let t = chars_trim(&parts[i]);
        let lt = match chars_find(&t, '<') {
            Some(k) => k,
            None => {
                return None;
            },
        };
        let gt = match chars_find(&t, '>') {
            Some(k) => k,
            None => {
                return None;
            },
        };
        if gt < lt + 1 {
            return None;
        }
        let url = chars_subrange(&t, lt + 1, gt);
        let after = chars_subrange(&t, gt + 1, t.len());
        let rel = chars_trim(&after);
        let probe1 = str_chars("rel=\"next\"");
        let probe2 = str_chars("rel=next");
        let is_next = {
            let a = crate::strutil::chars_contains_sub(&rel, &probe1);
            if a {
                true
            } else {
                crate::strutil::chars_contains_sub(&rel, &probe2)
            }
        };
        if is_next {
            return Some(chars_string(&url));
        }
        i += 1;
    }
    proof {
        assert(all.subrange(i as int, all.len() as int) =~= Seq::<Seq<char>>::empty());
    }
    None
}

/// The `next` URL in a response body's `_links` object, if any.
pub open spec fn spec_next_link_from_body(v: JsonValue) -> Option<Seq<char>> {
    match spec_get(v, "_links"@) {
        Some(links) => spec_str_field(links, "next"@),
        None => None,
    }
}

pub fn next_link_from_body(v: &JsonValue) -> (r: Option<String>)
    ensures
        match r {
            Some(u) => spec_next_link_from_body(*v) == Some(u@),
            None => spec_next_link_from_body(*v) is None,
        },
{
    match v.get("_links") {
        Some(links) => match str_field(links, "next") {
            Some(u) => Some(chars_string(&u)),
            None => None,
        },
        None => None,
    }
}

/// The next link one fetched page offers: the `Link` response header wins,
/// else the body's `_links.next`.
pub open spec fn spec_found_next(headers: Seq<(String, String)>, body: JsonValue) -> Option<
    Seq<char>,
> {
    if spec_next_link_from_headers(headers) is Some {
        spec_next_link_from_headers(headers)
    } else {
        spec_next_link_from_body(body)
    }
}

/// The items a list response carries: a `results` or `items` array field,
/// or the response itself where it is a bare array; nothing otherwise.
pub open spec fn spec_extract_items(body: JsonValue) -> Option<Seq<JsonValue>> {
    match spec_get(body, "results"@) {
        Some(JsonValue::Arr(items)) => Some(items@),
        _ => match spec_get(body, "items"@) {
            Some(JsonValue::Arr(items)) => Some(items@),
            _ => match body {
                JsonValue::Arr(items) => Some(items@),
                _ => None,
            },
        },
    }
}

/// Takes an array-valued field out of an object's entries; anything else —
/// the field missing, or its first occurrence not an array — leaves the
/// entries untouched.
#[verifier::loop_isolation(false)]
fn take_array_field(entries: &mut Vec<(String, JsonValue)>, key: &str) -> (r: Option<
    Vec<JsonValue>,
>)
    ensures
        match crate::jsonv::spec_obj_get(old(entries)@, key@) {
            Some(JsonValue::Arr(a)) => r matches Some(items) && items@ == a@,
            _ => r is None && final(entries)@ == old(entries)@,
        },
{
    let key_chars = str_chars(key);
    let ghost all = entries@;
    proof {
        assert(all.subrange(0, all.len() as int) =~= all);
    }
    let mut i: usize = 0;
    while i < entries.len()
        invariant
            i <= all.len(),
            all == entries@,
            key_chars@ == key@,
            crate::jsonv::spec_obj_get(all, key@) == crate::jsonv::spec_obj_get(
                all.subrange(i as int, all.len() as int),
                key@,
            ),
        decreases all.len() - i,
    {
        let ghost rest = all.subrange(i as int, all.len() as int);
        proof {
            assert(rest[0] == all[i as int]);
            assert(rest.drop_first() =~= all.subrange(i + 1, all.len() as int));
        }
        let ek = str_chars(entries[i].0.as_str());
        if crate::strutil::chars_eq(&ek, &key_chars) {
            proof {
                assert(crate::jsonv::spec_obj_get(rest, key@) == Some(rest[0].1));
            }
            let is_arr = match &entries[i].1 {
                JsonValue::Arr(_) => true,
                _ => false,
            };
            if is_arr {
                let entry = entries.remove(i);
                match entry.1 {
                    JsonValue::Arr(items) => {
                        return Some(items);
                    },
                    _ => {
                        proof {
                            assert(false);
                        }
                        return None;
                    },
                }
            }
            return None;
        }
        i += 1;
    }
    proof {
        assert(all.subrange(i as int, all.len() as int) =~= Seq::<(String, JsonValue)>::empty());
    }
    None
}

pub open spec fn shape_error_text() -> Seq<char> {
    "Unexpected response shape: missing results array"@
}

/// The items of a list response, in the shapes the service uses; a shape
/// error on anything else.
pub fn extract_items(body: JsonValue) -> (r: Result<Vec<JsonValue>, ApiError>)
    ensures
        match r {
            Ok(items) => spec_extract_items(body) == Some(items@),
            Err(e) => spec_extract_items(body) is None && (e matches ApiError::Protocol {
                message,
            } && message@ == shape_error_text()),
        },
{
    let shape_err = || -> (e: ApiError)
        ensures
            e matches ApiError::Protocol { message } && message@ == shape_error_text(),
        {
            ApiError::Protocol {
                message: String::from_str("Unexpected response shape: missing results array"),
            }
        };
    match body {
        JsonValue::Arr(items) => Ok(items),
        JsonValue::Obj(mut entries) => {
            match take_array_field(&mut entries, "results") {
                Some(items) => {
                    return Ok(items);
                },
                None => {},
            }
            match take_array_field(&mut entries, "items") {
                Some(items) => {
                    return Ok(items);
                },
                None => {},
            }
            Err(shape_err())
        },
        _ => Err(shape_err()),
    }
}

/// Where the next page lives: `next` taken as an absolute URL where it
/// parses as one, else resolved against the URL that produced it — never
/// against the site root, because cursor-only links are query-relative.
pub open spec fn spec_resolve_next(current: Seq<char>, next: Seq<char>) -> Option<Seq<char>> {
    match url_parse_of(next) {
        Some(abs) => Some(abs),
        None => url_join_of(current, next),
    }
}

pub open spec fn bad_next_text(current: Seq<char>, next: Seq<char>) -> Seq<char> {
    "Failed to resolve pagination next link '"@ + next + "' from '"@ + current + "'"@
}

/// The absolute URL of the next page.
pub fn resolve_next_page_url(current: &str, next: &str) -> (r: Result<String, ApiError>)
    ensures
        match r {
            Ok(u) => spec_resolve_next(current@, next@) == Some(u@),
            Err(e) => spec_resolve_next(current@, next@) is None && (e matches
            ApiError::Protocol { message } && message@ == bad_next_text(current@, next@)),
        },
{
    if let Some(abs) = url_parse(next) {
        return Ok(abs);
    }
    if let Some(joined) = url_join(current, next) {
        return Ok(joined);
    }
    let mut msg = str_chars("Failed to resolve pagination next link '");
    let next_chars = str_chars(next);
    let cur_chars = str_chars(current);
    let mid = str_chars("' from '");
    let tail = str_chars("'");
    let m1 = chars_concat(&msg, &next_chars);
    let m2 = chars_concat(&m1, &mid);
    let m3 = chars_concat(&m2, &cur_chars);
    let m4 = chars_concat(&m3, &tail);
    proof {
        assert(m4@ =~= bad_next_text(current@, next@));
    }
    Err(ApiError::Protocol { message: chars_string(&m4) })
}

/// Whether some visited URL reads exactly `u`.
pub open spec fn spec_contains_url(visited: Seq<String>, u: Seq<char>) -> bool {
    exists|i: int| 0 <= i < visited.len() && #[trigger] visited[i]@ == u
}

fn contains_url(visited: &Vec<String>, u: &String) -> (r: bool)
    ensures
        r == spec_contains_url(visited@, u@),
{
    let uc = str_chars(u.as_str());
    let mut i: usize = 0;
    while i < visited.len()
        invariant
            i <= visited@.len(),
            uc@ == u@,
            forall|j: int| 0 <= j < i ==> #[trigger] visited@[j]@ != u@,
        decreases visited@.len() - i,
    {
        let vc = str_chars(visited[i].as_str());
        if crate::strutil::chars_eq(&vc, &uc) {
            return true;
        }
        i += 1;
    }
    false
}

pub open spec fn loop_error_text(u: Seq<char>) -> Seq<char> {
    "Pagination loop detected: already visited next URL: "@ + u
}

pub open spec fn abort_error_text(max_pages: u64) -> Seq<char> {
    "Pagination aborted after "@ + decimal_of(max_pages as nat)
        + " pages (possible looping 'next' link)"@
}

/// One pagination walk: the next URL to fetch, every URL already fetched,
/// the page count, and the items collected so far. The visited set only
/// ever grows, and exists solely to bound an otherwise unbounded walk.
#[verifier::ext_equal]
pub struct PageWalk {
    pub next_url: Option<String>,
    pub current_url: String,
    pub visited: Vec<String>,
    pub pages: u64,
    pub items: Vec<JsonValue>,
    pub all: bool,
    pub max_pages: u64,
}

impl PageWalk {
    /// A walk that will fetch `url` first; with `all` false it stops after
    /// one page.
    pub fn new(url: String, all: bool) -> (s: Self)
        ensures
            s.next_url == Some(url),
            s.visited@.len() == 0,
            s.pages == 0,
            s.items@.len() == 0,
            s.all == all,
            s.max_pages == DEFAULT_MAX_PAGES,
    {
        PageWalk {
            next_url: Some(url),
            current_url: String::new(),
            visited: Vec::new(),
            pages: 0,
            items: Vec::new(),
            all,
            max_pages: DEFAULT_MAX_PAGES,
        }
    }

    /// As [`PageWalk::new`], with an explicit page ceiling.
    pub fn new_with_limit(url: String, all: bool, max_pages: u64) -> (s: Self)
        ensures
            s.next_url == Some(url),
            s.visited@.len() == 0,
            s.pages == 0,
            s.items@.len() == 0,
            s.all == all,
            s.max_pages == max_pages,
    {
        PageWalk {
            next_url: Some(url),
            current_url: String::new(),
            visited: Vec::new(),
            pages: 0,
            items: Vec::new(),
            all,
            max_pages,
        }
    }

    /// The URL the caller must fetch now, or `None` when the walk is done.
    ///
    /// A next URL that was already fetched is reported as a loop *before*
    /// any request is issued for it, and a walk past the page ceiling is
    /// aborted; both are protocol errors, fatal and never retried.
    pub fn begin_page(&mut self) -> (r: Result<Option<String>, ApiError>)
        ensures
            old(self).next_url is None ==> r == Ok::<Option<String>, ApiError>(
                None::<String>,
            ) && *final(self) == *old(self),
            old(self).next_url matches Some(u) ==> {
                if old(self).pages >= old(self).max_pages {
                    r matches Err(ApiError::Protocol { message }) && message@
                        == abort_error_text(old(self).max_pages) && *final(self) == *old(self)
                } else if spec_contains_url(old(self).visited@, u@) {
                    r matches Err(ApiError::Protocol { message }) && message@
                        == loop_error_text(u@) && *final(self) == *old(self)
                } else {
                    &&& r == Ok::<Option<String>, ApiError>(Some(u))
                    &&& final(self).visited@ == old(self).visited@.push(u)
                    &&& final(self).pages == old(self).pages + 1
                    &&& final(self).next_url is None
                    &&& final(self).current_url == u
                    &&& final(self).items == old(self).items
                    &&& final(self).all == old(self).all
                    &&& final(self).max_pages == old(self).max_pages
                }
            },
    {
        let mut taken: Option<String> = None;
        core::mem::swap(&mut taken, &mut self.next_url);
        let u = match taken {
            Some(u) => u,
            None => {
                proof {
                    assert(*self =~= *old(self));
                }
                return Ok(None);
            },
        };
        if self.pages >= self.max_pages {
            let head = str_chars("Pagination aborted after ");
            let digits = u64_string(self.max_pages);
            let dc = str_chars(digits.as_str());
            let tail = str_chars(" pages (possible looping 'next' link)");
            let m1 = chars_concat(&head, &dc);
            let m2 = chars_concat(&m1, &tail);
            proof {
                assert(m2@ =~= abort_error_text(old(self).max_pages));
            }
            self.next_url = Some(u);
            proof {
                assert(*self =~= *old(self));
            }
            return Err(ApiError::Protocol { message: chars_string(&m2) });
        }
        if contains_url(&self.visited, &u) {
            let head = str_chars("Pagination loop detected: already visited next URL: ");
            let uc = str_chars(u.as_str());
            let m1 = chars_concat(&head, &uc);
            proof {
                assert(m1@ =~= loop_error_text(u@));
            }
            let msg = chars_string(&m1);
            self.next_url = Some(u);
            proof {
                assert(*self =~= *old(self));
            }
            return Err(ApiError::Protocol { message: msg });
        }
        self.pages = self.pages + 1;
        self.visited.push(u.clone());
        self.current_url = u.clone();
        Ok(Some(u))
    }

    /// Takes apart the page fetched from the URL that `begin_page` handed
    /// out: collects its items in order, and finds the next URL — in the
    /// `Link` header first, else in the body — resolved against the URL
    /// that produced it.
    pub fn finish_page(&mut self, body: JsonValue, headers: &Vec<(String, String)>) -> (r:
        Result<(), ApiError>)
        ensures
            r is Ok ==> (spec_extract_items(body) matches Some(items) && final(self).items@
                == old(self).items@ + items),
            r is Ok ==> final(self).visited == old(self).visited && final(self).pages == old(
                self,
            ).pages && final(self).all == old(self).all && final(self).max_pages == old(
                self,
            ).max_pages,
            spec_extract_items(body) is None ==> (r matches Err(ApiError::Protocol { message })
                && message@ == shape_error_text()),
            r is Ok && !old(self).all ==> final(self).next_url is None,
            r is Ok && old(self).all ==> (match spec_found_next(headers@, body) {
                None => final(self).next_url is None,
                Some(n) => (final(self).next_url matches Some(u) && spec_resolve_next(
                    old(self).current_url@,
                    n,
                ) == Some(u@)),
            }),
            r is Ok ==> spec_extract_items(body) is Some,
            spec_extract_items(body) is Some && !old(self).all ==> r is Ok,
            spec_extract_items(body) is Some && old(self).all && spec_found_next(
                headers@,
                body,
            ) is None ==> r is Ok,
            spec_extract_items(body) is Some && old(self).all ==> (match spec_found_next(
                headers@,
                body,
            ) {
                Some(n) => {
                    &&& (spec_resolve_next(old(self).current_url@, n) is Some ==> r is Ok)
                    &&& (spec_resolve_next(old(self).current_url@, n) is None ==> (r matches Err(
                        ApiError::Protocol { message },
                    ) && message@ == bad_next_text(old(self).current_url@, n)))
                },
                None => true,
            }),
    {
        let ghost found = spec_found_next(headers@, body);
        let next_header = next_link_from_headers(headers);
        let next_body = next_link_from_body(&body);
        let mut items = match extract_items(body) {
            Ok(items) => items,
            Err(e) => {
                return Err(e);
            },
        };
        self.items.append(&mut items);
        if !self.all {
            self.next_url = None;
            proof {
                assert(!old(self).all);
            }
            return Ok(());
        }
        let next = match next_header {
            Some(n) => Some(n),
            None => next_body,
        };
        proof {
            match &next {
                Some(n) => {
                    assert(found == Some(n@));
                },
                None => {
                    assert(found is None);
                },
            }
        }
        match next {
            Some(n) => {
                proof {
                    assert(self.current_url == old(self).current_url);
                }
                let resolved = match resolve_next_page_url(self.current_url.as_str(), n.as_str()) {
                    Ok(u) => u,
                    Err(e) => {
                        proof {
                            assert(spec_resolve_next(old(self).current_url@, n@) is None);
                            assert(found->Some_0 == n@);
                        }
                        return Err(e);
                    },
                };
                self.next_url = Some(resolved);
            },
            None => {
                self.next_url = None;
            },
        }
        Ok(())
    }
}

} // verus!
